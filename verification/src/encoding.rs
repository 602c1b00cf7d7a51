//! Text encodings: how the encoding of a file is chosen (byte-order mark,
//! UTF-8 validity, a named encoding, or a guess from the bytes), and how
//! its bytes become lines.
use vstd::prelude::*;
use crate::text::string_views;
use encoding_rs::Encoding;
use crate::text::{chars_of, string_of, chars_between, uppercase_of, unicode_uppercase};
use crate::agent::{first_byte, utf8_string, utf8_lossy, utf8_lossy_string};
use crate::query::Query;
use crate::search::{search_lines, occurrences, matched_lines_spec, positive_set, merge_spec, ctx_ranges, fits_context};
use crate::query::{eval_spec, occurs_val};

verus! {

#[verifier::external_type_specification]
#[verifier::external_body]
pub struct ExEncoding(encoding_rs::Encoding);

/// A character encoding of encoding_rs, together with its canonical name
/// (`UTF-8`, `UTF-16LE`, `GBK`, ...). Names tell encodings apart.
#[derive(Debug, Clone, Copy)]
pub struct TextEncoding {
    encoding: &'static Encoding,
    name: &'static str,
}

impl View for TextEncoding {
    type V = Seq<char>;

    closed spec fn view(&self) -> Seq<char> {
        self.name@
    }
}

impl TextEncoding {
    /// The canonical name of the encoding.
    pub fn name(&self) -> (r: &'static str)
        ensures
            r@ == self@,
    {
        self.name
    }

    /// The encoding_rs encoding held, the one named by `self@`.
    pub closed spec fn held_encoding(&self) -> &'static Encoding {
        self.encoding
    }

    /// The encoding_rs encoding.
    pub fn encoding(&self) -> (r: &'static Encoding)
        ensures
            r == self.held_encoding(),
    {
        self.encoding
    }

    /// Whether this is UTF-8.
    pub fn is_utf8(&self) -> (r: bool)
        ensures
            r == (self@ == "UTF-8"@),
    {
        self.name.to_owned().eq(&"UTF-8".to_owned())
    }

    /// Whether this is UTF-16, little- or big-endian.
    pub fn is_utf16(&self) -> (r: bool)
        ensures
            r == (self@ == "UTF-16LE"@ || self@ == "UTF-16BE"@),
    {
        let n = self.name.to_owned();
        n.eq(&"UTF-16LE".to_owned()) || n.eq(&"UTF-16BE".to_owned())
    }
}

/// `encoding_rs::UTF_8`, named `UTF-8`.
#[verifier::external_body]
pub(crate) fn utf_8() -> (r: TextEncoding)
    ensures
        r@ == "UTF-8"@,
{
    TextEncoding { encoding: encoding_rs::UTF_8, name: encoding_rs::UTF_8.name() }
}

/// `encoding_rs::UTF_16LE`, named `UTF-16LE`.
#[verifier::external_body]
fn utf_16le() -> (r: TextEncoding)
    ensures
        r@ == "UTF-16LE"@,
{
    TextEncoding { encoding: encoding_rs::UTF_16LE, name: encoding_rs::UTF_16LE.name() }
}

/// `encoding_rs::UTF_16BE`, named `UTF-16BE`.
#[verifier::external_body]
fn utf_16be() -> (r: TextEncoding)
    ensures
        r@ == "UTF-16BE"@,
{
    TextEncoding { encoding: encoding_rs::UTF_16BE, name: encoding_rs::UTF_16BE.name() }
}

/// `encoding_rs::GBK`, named `GBK`.
#[verifier::external_body]
fn gbk() -> (r: TextEncoding)
    ensures
        r@ == "GBK"@,
{
    TextEncoding { encoding: encoding_rs::GBK, name: encoding_rs::GBK.name() }
}

/// `encoding_rs::BIG5`, named `Big5`.
#[verifier::external_body]
fn big5() -> (r: TextEncoding)
    ensures
        r@ == "Big5"@,
{
    TextEncoding { encoding: encoding_rs::BIG5, name: encoding_rs::BIG5.name() }
}

/// `encoding_rs::SHIFT_JIS`, named `Shift_JIS`.
#[verifier::external_body]
fn shift_jis() -> (r: TextEncoding)
    ensures
        r@ == "Shift_JIS"@,
{
    TextEncoding { encoding: encoding_rs::SHIFT_JIS, name: encoding_rs::SHIFT_JIS.name() }
}

/// `encoding_rs::EUC_KR`, named `EUC-KR`.
#[verifier::external_body]
fn euc_kr() -> (r: TextEncoding)
    ensures
        r@ == "EUC-KR"@,
{
    TextEncoding { encoding: encoding_rs::EUC_KR, name: encoding_rs::EUC_KR.name() }
}

/// `encoding_rs::WINDOWS_1252`, named `windows-1252`.
#[verifier::external_body]
fn windows_1252() -> (r: TextEncoding)
    ensures
        r@ == "windows-1252"@,
{
    TextEncoding { encoding: encoding_rs::WINDOWS_1252, name: encoding_rs::WINDOWS_1252.name() }
}

/// The name of the encoding that `Encoding::for_label` finds for a label
/// (WHATWG labels, matched without regard to ASCII case or surrounding
/// white space), if any.
pub uninterp spec fn label_encoding(label: Seq<char>) -> Option<Seq<char>>;

/// `Encoding::for_label` on the bytes of `label`.
#[verifier::external_body]
pub(crate) fn encoding_for_label(label: &str) -> (r: Option<TextEncoding>)
    ensures
        match r {
            Some(e) => label_encoding(label@) == Some(e@),
            None => label_encoding(label@) is None,
        },
{
    Encoding::for_label(label.as_bytes()).map(|e| TextEncoding { encoding: e, name: e.name() })
}

/// The name of the encoding that chardetng guesses for `sample`, fed as
/// the whole input, with no top-level domain and UTF-8 allowed.
pub uninterp spec fn guessed_encoding(sample: Seq<u8>) -> Seq<char>;

/// `chardetng::EncodingDetector`: feeds `sample` as the last input and
/// returns `guess(None, true)`.
#[verifier::external_body]
fn guess_encoding(sample: &[u8]) -> (r: TextEncoding)
    ensures
        r@ == guessed_encoding(sample@),
{
    let mut detector = chardetng::EncodingDetector::new();
    detector.feed(sample, true);
    let e = detector.guess(None, true);
    TextEncoding { encoding: e, name: e.name() }
}

/// The text that `Encoding::decode` gives for `bytes` in the encoding of
/// this name (a byte-order mark at the start, if any, chooses the encoding
/// and is removed; malformed sequences become U+FFFD).
pub uninterp spec fn decoded_text(encoding: Seq<char>, bytes: Seq<u8>) -> Seq<char>;

/// `Encoding::decode`: the text of `bytes`.
#[verifier::external_body]
pub(crate) fn decode_text(encoding: &TextEncoding, bytes: &[u8]) -> (r: String)
    ensures
        r@ == decoded_text(encoding@, bytes@),
{
    encoding.encoding.decode(bytes).0.into_owned()
}

/// `k` is the length of the longest prefix of `b` that is valid UTF-8.
pub open spec fn longest_valid_prefix(b: Seq<u8>, k: int) -> bool {
    &&& 0 <= k <= b.len()
    &&& vstd::utf8::valid_utf8(b.take(k))
    &&& forall|j: int| k < j <= b.len() ==> !vstd::utf8::valid_utf8(#[trigger] b.take(j))
}

/// The length of the longest prefix of `b` that is valid UTF-8:
/// `b.len()` where `std::str::from_utf8` accepts `b`, else the error's
/// `valid_up_to`.
#[verifier::external_body]
fn utf8_valid_up_to(b: &[u8]) -> (r: usize)
    ensures
        longest_valid_prefix(b@, r as int),
{
    match std::str::from_utf8(b) {
        Ok(_) => b.len(),
        Err(e) => e.valid_up_to(),
    }
}

/// There is only one longest valid prefix.
proof fn lemma_longest_valid_prefix_unique(b: Seq<u8>, k1: int, k2: int)
    requires
        longest_valid_prefix(b, k1),
        longest_valid_prefix(b, k2),
    ensures
        k1 == k2,
{
    if k1 < k2 {
        assert(!vstd::utf8::valid_utf8(b.take(k2)));
    } else if k2 < k1 {
        assert(!vstd::utf8::valid_utf8(b.take(k1)));
    }
}

/// `b` is valid UTF-8, or only its last one to three bytes (an incomplete
/// character, as when a sample is cut) keep it from being so.
pub open spec fn utf8_acceptable(b: Seq<u8>) -> bool {
    vstd::utf8::valid_utf8(b) || exists|k: int| longest_valid_prefix(b, k) && k > 0 && b.len() - k <= 3
}

/// The encoding chosen for a sample: a UTF-16 or UTF-8 byte-order mark
/// names it; UTF-8 that is valid (or cut inside its last character) is
/// UTF-8; anything else is what chardetng guesses.
pub open spec fn detected_encoding(b: Seq<u8>) -> Seq<char> {
    if b.len() >= 2 && b[0] == 0xFFu8 && b[1] == 0xFEu8 {
        "UTF-16LE"@
    } else if b.len() >= 2 && b[0] == 0xFEu8 && b[1] == 0xFFu8 {
        "UTF-16BE"@
    } else if b.len() >= 3 && b[0] == 0xEFu8 && b[1] == 0xBBu8 && b[2] == 0xBFu8 {
        "UTF-8"@
    } else if utf8_acceptable(b) {
        "UTF-8"@
    } else {
        guessed_encoding(b)
    }
}

/// Detects the encoding of a sample of bytes. It always finds one.
pub fn detect_encoding(sample: &[u8]) -> (r: Option<TextEncoding>)
    ensures
        r matches Some(e) && e@ == detected_encoding(sample@),
{
    let n = sample.len();
    if n >= 2 {
        if sample[0] == 0xFF && sample[1] == 0xFE {
            return Some(utf_16le());
        }
        if sample[0] == 0xFE && sample[1] == 0xFF {
            return Some(utf_16be());
        }
    }
    if n >= 3 && sample[0] == 0xEF && sample[1] == 0xBB && sample[2] == 0xBF {
        return Some(utf_8());
    }
    let v = utf8_valid_up_to(sample);
    if v == n {
        proof {
            assert(sample@.take(n as int) =~= sample@);
        }
        return Some(utf_8());
    }
    proof {
        if vstd::utf8::valid_utf8(sample@) {
            assert(sample@.take(n as int) =~= sample@);
        }
    }
    if v > 0 && n - v <= 3 {
        return Some(utf_8());
    }
    proof {
        assert forall|k: int| longest_valid_prefix(sample@, k) implies !(k > 0 && sample@.len() - k <= 3) by {
            lemma_longest_valid_prefix_unique(sample@, k, v as int);
        }
    }
    Some(guess_encoding(sample))
}

/// Detects the encoding of a sample, with its name.
pub fn auto_detect_encoding(sample: &[u8]) -> (r: Option<(TextEncoding, String)>)
    ensures
        r matches Some((e, name)) && e@ == detected_encoding(sample@) && name@ == e@,
{
    match detect_encoding(sample) {
        Some(e) => {
            let name = e.name().to_owned();
            Some((e, name))
        },
        None => None,
    }
}

/// The index of the first line feed in `s`, if any.
pub open spec fn first_newline(s: Seq<char>) -> Option<int>
    decreases s.len(),
{
    if s.len() == 0 {
        None
    } else if s[0] == '\n' {
        Some(0)
    } else {
        match first_newline(s.drop_first()) {
            Some(i) => Some(i + 1),
            None => None,
        }
    }
}

/// `l` without one trailing carriage return.
pub open spec fn strip_cr(l: Seq<char>) -> Seq<char> {
    if l.len() > 0 && l.last() == '\r' { l.drop_last() } else { l }
}

/// The lines of `s`, as `str::lines` gives them: split at each line feed,
/// a carriage return just before it dropped, and no empty line after a
/// final line feed.
pub open spec fn lines_of(s: Seq<char>) -> Seq<Seq<char>>
    decreases s.len(),
{
    if s.len() == 0 {
        Seq::empty()
    } else {
        match first_newline(s) {
            Some(p) => if 0 <= p < s.len() {
                seq![strip_cr(s.take(p))] + lines_of(s.skip(p + 1))
            } else {
                Seq::empty()
            },
            None => seq![s],
        }
    }
}

/// What `first_newline` finds in `s.skip(i)`, where the first line feed at
/// or after `i` is at `j` (or there is none, `j == s.len()`).
proof fn lemma_first_newline_from(s: Seq<char>, i: int, j: int)
    requires
        0 <= i <= j <= s.len(),
        forall|m: int| i <= m < j ==> s[m] != '\n',
        j < s.len() ==> s[j] == '\n',
    ensures
        j < s.len() ==> first_newline(s.skip(i)) == Some(j - i),
        j == s.len() ==> first_newline(s.skip(i)) is None,
    decreases j - i,
{
    if i < j {
        lemma_first_newline_from(s, i + 1, j);
        assert(s.skip(i).drop_first() =~= s.skip(i + 1));
    }
}

/// The position of the first line feed in `v` at or after `i`, or the
/// length of `v` where there is none.
fn next_newline(v: &Vec<char>, i: usize) -> (j: usize)
    requires
        i <= v@.len(),
    ensures
        i <= j <= v@.len(),
        forall|m: int| i <= m < j ==> v@[m] != '\n',
        j < v@.len() ==> v@[j as int] == '\n',
{
    let mut j = i;
    while j < v.len() && v[j] != '\n'
        invariant
            i <= j <= v@.len(),
            forall|m: int| i <= m < j ==> v@[m] != '\n',
        decreases v@.len() - j,
    {
        j += 1;
    }
    j
}

/// `str::lines`: the lines of `text`.
pub fn split_lines(text: &str) -> (r: Vec<String>)
    ensures
        string_views(r@) == lines_of(text@),
{
    let v = chars_of(text);
    let n = v.len();
    let mut out: Vec<String> = Vec::new();
    let mut i: usize = 0;
    proof {
        assert(v@.skip(0) =~= v@);
        assert(string_views(out@) + lines_of(v@) =~= lines_of(v@));
    }
    while i < n
        invariant
            n == v@.len(),
            v@ == text@,
            i <= n,
            string_views(out@) + lines_of(v@.skip(i as int)) == lines_of(v@),
        decreases n - i,
    {
        let j = next_newline(&v, i);
        proof {
            lemma_first_newline_from(v@, i as int, j as int);
        }
        let ghost rest = v@.skip(i as int);
        if j < n {
            let mut piece = chars_between(&v, i, j);
            if piece.len() > 0 && piece[piece.len() - 1] == '\r' {
                piece.pop();
            }
            let line = string_of(piece.as_slice());
            proof {
                assert(rest.take(j - i) =~= v@.subrange(i as int, j as int));
                assert(rest.skip(j - i + 1) =~= v@.skip(j + 1));
                assert(string_views(out@.push(line)) =~= string_views(out@).push(line@));
            }
            out.push(line);
            i = j + 1;
        } else {
            let piece = chars_between(&v, i, n);
            let line = string_of(piece.as_slice());
            proof {
                assert(piece@ =~= rest);
                assert(v@.skip(n as int) =~= Seq::<char>::empty());
                assert(string_views(out@.push(line)) =~= string_views(out@).push(line@));
            }
            out.push(line);
            i = n;
        }
    }
    proof {
        assert(v@.skip(n as int) =~= Seq::<char>::empty());
        assert(string_views(out@) + Seq::<Seq<char>>::empty() =~= string_views(out@));
    }
    out
}

/// Decodes a whole buffer in an encoding and splits the text into lines.
/// `warn_prefix` names the caller in diagnostics.
pub fn decode_buffer_to_lines(encoding: &TextEncoding, buffer: &[u8], warn_prefix: &str) -> (r: Vec<String>)
    ensures
        string_views(r@) == lines_of(decoded_text(encoding@, buffer@)),
{
    let text = decode_text(encoding, buffer);
    split_lines(text.as_str())
}

/// The encoding that an alias names, for an upper-cased alias that
/// `Encoding::for_label` does not know (the Latin-1 aliases name what
/// `for_label` gives for `ISO-8859-1`).
pub open spec fn alias_encoding(u: Seq<char>) -> Option<Seq<char>> {
    if u == "UTF8"@ || u == "UTF-8"@ {
        Some("UTF-8"@)
    } else if u == "GBK"@ {
        Some("GBK"@)
    } else if u == "BIG5"@ || u == "BIG-5"@ {
        Some("Big5"@)
    } else if u == "SHIFT-JIS"@ || u == "SHIFT_JIS"@ || u == "SJIS"@ {
        Some("Shift_JIS"@)
    } else if u == "EUC-KR"@ || u == "EUC_KR"@ {
        Some("EUC-KR"@)
    } else if u == "WINDOWS-1252"@ || u == "WINDOWS_1252"@ || u == "CP1252"@ {
        Some("windows-1252"@)
    } else if u == "ISO-8859-1"@ || u == "ISO_8859_1"@ || u == "LATIN1"@ || u == "LATIN-1"@ {
        label_encoding("ISO-8859-1"@)
    } else if u == "UTF-16LE"@ || u == "UTF16LE"@ || u == "UTF-16-LE"@ {
        Some("UTF-16LE"@)
    } else if u == "UTF-16BE"@ || u == "UTF16BE"@ || u == "UTF-16-BE"@ {
        Some("UTF-16BE"@)
    } else {
        None
    }
}

/// The encoding that an `encoding:` qualifier names: its WHATWG label, or
/// else one of the aliases, compared in upper case.
pub open spec fn qualifier_encoding(q: Seq<char>) -> Option<Seq<char>> {
    match label_encoding(q) {
        Some(n) => Some(n),
        None => alias_encoding(unicode_uppercase(q)),
    }
}

/// `s` holds exactly the characters of `lit`.
fn text_is(s: &String, lit: &str) -> (r: bool)
    ensures
        r == (s@ == lit@),
{
    s.eq(&lit.to_owned())
}

/// The encoding that an `encoding:` qualifier names, if any.
pub fn encoding_for_qualifier(q: &str) -> (r: Option<TextEncoding>)
    ensures
        match r {
            Some(e) => qualifier_encoding(q@) == Some(e@),
            None => qualifier_encoding(q@) is None,
        },
{
    if let Some(e) = encoding_for_label(q) {
        return Some(e);
    }
    let u = uppercase_of(q);
    if text_is(&u, "UTF8") || text_is(&u, "UTF-8") {
        Some(utf_8())
    } else if text_is(&u, "GBK") {
        Some(gbk())
    } else if text_is(&u, "BIG5") || text_is(&u, "BIG-5") {
        Some(big5())
    } else if text_is(&u, "SHIFT-JIS") || text_is(&u, "SHIFT_JIS") || text_is(&u, "SJIS") {
        Some(shift_jis())
    } else if text_is(&u, "EUC-KR") || text_is(&u, "EUC_KR") {
        Some(euc_kr())
    } else if text_is(&u, "WINDOWS-1252") || text_is(&u, "WINDOWS_1252") || text_is(&u, "CP1252") {
        Some(windows_1252())
    } else if text_is(&u, "ISO-8859-1") || text_is(&u, "ISO_8859_1") || text_is(&u, "LATIN1") || text_is(&u, "LATIN-1") {
        encoding_for_label("ISO-8859-1")
    } else if text_is(&u, "UTF-16LE") || text_is(&u, "UTF16LE") || text_is(&u, "UTF-16-LE") {
        Some(utf_16le())
    } else if text_is(&u, "UTF-16BE") || text_is(&u, "UTF16BE") || text_is(&u, "UTF-16-BE") {
        Some(utf_16be())
    } else {
        None
    }
}

/// The encoding used to read a file: the one its qualifier names, else
/// the one detected from its first bytes.
pub open spec fn chosen_encoding(qualifier: Option<Seq<char>>, sample: Seq<u8>) -> Seq<char> {
    match qualifier {
        Some(q) => match qualifier_encoding(q) {
            Some(n) => n,
            None => detected_encoding(sample),
        },
        None => detected_encoding(sample),
    }
}

/// The view of an optional string.
pub open spec fn opt_text(q: Option<&str>) -> Option<Seq<char>> {
    match q {
        Some(s) => Some(s@),
        None => None,
    }
}

/// Chooses the encoding of a file from its qualifier and its first bytes.
pub fn choose_encoding(qualifier: Option<&str>, sample: &[u8]) -> (r: TextEncoding)
    ensures
        r@ == chosen_encoding(opt_text(qualifier), sample@),
{
    if let Some(q) = qualifier {
        if let Some(e) = encoding_for_qualifier(q) {
            return e;
        }
    }
    match detect_encoding(sample) {
        Some(e) => e,
        None => utf_8(),
    }
}

/// The text of bytes read as UTF-8: the bytes themselves where valid; the
/// longest valid prefix where only one to three bytes at the end spoil it
/// (those bytes are dropped); else the lossy text, with U+FFFD for each
/// malformed sequence.
pub open spec fn utf8_text(b: Seq<u8>) -> Seq<char> {
    if vstd::utf8::valid_utf8(b) {
        vstd::utf8::decode_utf8(b)
    } else if exists|k: int| longest_valid_prefix(b, k) && k > 0 && b.len() - k <= 3 {
        vstd::utf8::decode_utf8(b.take(choose|k: int| longest_valid_prefix(b, k)))
    } else {
        utf8_lossy(b)
    }
}

/// Reads bytes as UTF-8 text as `utf8_text` says.
fn utf8_text_of(b: &[u8]) -> (r: String)
    ensures
        r@ == utf8_text(b@),
{
    let n = b.len();
    let v = utf8_valid_up_to(b);
    if v == n {
        proof {
            assert(b@.take(n as int) =~= b@);
        }
        match utf8_string(vstd::slice::slice_to_vec(b)) {
            Some(s) => return s,
            None => return utf8_lossy_string(b),
        }
    }
    proof {
        if vstd::utf8::valid_utf8(b@) {
            assert(b@.take(n as int) =~= b@);
        }
    }
    if v > 0 && n - v <= 3 {
        let prefix = vstd::slice::slice_to_vec(vstd::slice::slice_subrange(b, 0, v));
        proof {
            assert(prefix@ =~= b@.take(v as int));
            let k = choose|k: int| longest_valid_prefix(b@, k);
            lemma_longest_valid_prefix_unique(b@, k, v as int);
        }
        match utf8_string(prefix) {
            Some(s) => return s,
            None => return utf8_lossy_string(b),
        }
    }
    proof {
        assert forall|k: int| longest_valid_prefix(b@, k) implies !(k > 0 && b@.len() - k <= 3) by {
            lemma_longest_valid_prefix_unique(b@, k, v as int);
        }
    }
    utf8_lossy_string(b)
}

/// `l` ends with a carriage return or a line feed.
pub open spec fn ends_with_break(l: Seq<char>) -> bool {
    l.len() > 0 && (l.last() == '\r' || l.last() == '\n')
}

/// `l` without its trailing carriage returns and line feeds.
pub open spec fn trim_line_end(l: Seq<char>) -> Seq<char>
    decreases l.len(),
{
    if ends_with_break(l) { trim_line_end(l.drop_last()) } else { l }
}

/// The length of the first chunk of `b` that a line reader takes: up to
/// and with the first line feed, or all of `b`.
pub open spec fn chunk_end(b: Seq<u8>) -> int {
    match first_byte(b, 10u8) {
        Some(p) => p + 1,
        None => b.len() as int,
    }
}

/// The lines that a UTF-8 line reader gives for the rest of a file, where
/// `line` is the text read so far that no line break has ended: each chunk
/// is read as UTF-8 text and added to the line; where the line then ends
/// with a break, it is given without its trailing breaks and a new line
/// begins. At the end a line that is not empty is given likewise.
pub open spec fn utf8_stream(line: Seq<char>, rest: Seq<u8>) -> Seq<Seq<char>>
    decreases rest.len(),
{
    if rest.len() == 0 {
        if line.len() > 0 { seq![trim_line_end(line)] } else { Seq::empty() }
    } else {
        let k = chunk_end(rest);
        if 0 < k <= rest.len() {
            let l2 = line + utf8_text(rest.take(k));
            if ends_with_break(l2) {
                seq![trim_line_end(l2)] + utf8_stream(Seq::empty(), rest.skip(k))
            } else {
                utf8_stream(l2, rest.skip(k))
            }
        } else {
            Seq::empty()
        }
    }
}

/// The lines of a UTF-8 file whose first bytes are `sample` and the rest
/// `rest`: the sample is read as UTF-8 text and split into lines; its last
/// line, where the sample text does not end with a break, is continued by
/// the rest, which is read chunk by chunk.
pub open spec fn utf8_file_lines(sample: Seq<u8>, rest: Seq<u8>) -> Seq<Seq<char>> {
    let st = utf8_text(sample);
    let ls = lines_of(st);
    if !ends_with_break(st) && ls.len() > 0 {
        ls.drop_last() + utf8_stream(ls.last(), rest)
    } else {
        ls + utf8_stream(Seq::empty(), rest)
    }
}

/// What `first_byte` finds for a line feed in `b.skip(i)`, where the first
/// line feed at or after `i` is at `j` (or there is none, `j == b.len()`).
proof fn lemma_first_byte_from(b: Seq<u8>, i: int, j: int)
    requires
        0 <= i <= j <= b.len(),
        forall|m: int| i <= m < j ==> b[m] != 10u8,
        j < b.len() ==> b[j] == 10u8,
    ensures
        j < b.len() ==> first_byte(b.skip(i), 10u8) == Some(j - i),
        j == b.len() ==> first_byte(b.skip(i), 10u8) is None,
    decreases j - i,
{
    if i < j {
        lemma_first_byte_from(b, i + 1, j);
        assert(b.skip(i).drop_first() =~= b.skip(i + 1));
    }
}

/// Removes the trailing carriage returns and line feeds of `v`.
fn trim_line_end_of(v: &mut Vec<char>)
    ensures
        final(v)@ == trim_line_end(old(v)@),
{
    while v.len() > 0 && (v[v.len() - 1] == '\r' || v[v.len() - 1] == '\n')
        invariant
            trim_line_end(v@) == trim_line_end(old(v)@),
        decreases v@.len(),
    {
        v.pop();
    }
}

/// Appends the characters of `s` to `v`.
fn push_chars(v: &mut Vec<char>, s: &str)
    ensures
        final(v)@ == old(v)@ + s@,
{
    let cs = chars_of(s);
    let mut i: usize = 0;
    while i < cs.len()
        invariant
            i <= cs@.len(),
            cs@ == s@,
            v@ == old(v)@ + cs@.take(i as int),
        decreases cs@.len() - i,
    {
        v.push(cs[i]);
        assert(cs@.take(i + 1) =~= cs@.take(i as int).push(cs@[i as int]));
        i += 1;
    }
    assert(cs@.take(cs@.len() as int) =~= cs@);
}

/// Reads the lines of a UTF-8 file from its first bytes and the rest.
pub fn read_utf8_lines(sample: &[u8], rest: &[u8]) -> (r: Vec<String>)
    ensures
        string_views(r@) == utf8_file_lines(sample@, rest@),
{
    let st = utf8_text_of(sample);
    let mut lines = split_lines(st.as_str());
    let stc = chars_of(st.as_str());
    let complete = stc.len() > 0 && (stc[stc.len() - 1] == '\n' || stc[stc.len() - 1] == '\r');
    let mut line: Vec<char> = Vec::new();
    let ghost ls = lines_of(st@);
    if !complete && lines.len() > 0 {
        let last = lines.pop();
        match last {
            Some(l) => {
                line = chars_of(l.as_str());
            },
            None => {},
        }
        proof {
            assert(string_views(lines@) =~= ls.drop_last());
        }
    }
    let ghost head = string_views(lines@);
    let n = rest.len();
    let mut i: usize = 0;
    proof {
        assert(rest@.skip(0) =~= rest@);
    }
    while i < n
        invariant
            n == rest@.len(),
            i <= n,
            string_views(lines@) + utf8_stream(line@, rest@.skip(i as int)) == head + utf8_stream(
                if !ends_with_break(st@) && ls.len() > 0 { ls.last() } else { Seq::empty() },
                rest@,
            ),
        decreases n - i,
    {
        let mut j = i;
        while j < n && rest[j] != 10u8
            invariant
                n == rest@.len(),
                i <= j <= n,
                forall|m: int| i <= m < j ==> rest@[m] != 10u8,
            decreases n - j,
        {
            j += 1;
        }
        proof {
            lemma_first_byte_from(rest@, i as int, j as int);
        }
        let k = if j < n { j + 1 } else { n };
        let ghost tail = rest@.skip(i as int);
        let chunk = vstd::slice::slice_subrange(rest, i, k);
        let text = utf8_text_of(chunk);
        proof {
            assert(tail.take(k - i) =~= chunk@);
            assert(tail.skip(k - i) =~= rest@.skip(k as int));
        }
        let ghost before = line@;
        push_chars(&mut line, text.as_str());
        if line.len() > 0 && (line[line.len() - 1] == '\r' || line[line.len() - 1] == '\n') {
            trim_line_end_of(&mut line);
            let done = string_of(line.as_slice());
            proof {
                assert(string_views(lines@.push(done)) =~= string_views(lines@).push(done@));
                assert(string_views(lines@).push(done@) + utf8_stream(Seq::empty(), rest@.skip(k as int))
                    =~= string_views(lines@) + (seq![done@] + utf8_stream(Seq::empty(), rest@.skip(k as int))));
            }
            lines.push(done);
            line = Vec::new();
        }
        i = k;
    }
    proof {
        assert(rest@.skip(n as int) =~= Seq::<u8>::empty());
    }
    if line.len() > 0 {
        let ghost before = line@;
        trim_line_end_of(&mut line);
        let done = string_of(line.as_slice());
        proof {
            assert(string_views(lines@.push(done)) =~= string_views(lines@).push(done@));
            assert(string_views(lines@) + seq![done@] =~= string_views(lines@).push(done@));
        }
        lines.push(done);
    } else {
        proof {
            assert(string_views(lines@) + Seq::<Seq<char>>::empty() =~= string_views(lines@));
        }
    }
    lines
}

/// The bytes of a UTF-16 file that are decoded: the first bytes without a
/// UTF-16 byte-order mark, then the rest, less a last odd byte.
pub open spec fn utf16_payload(sample: Seq<u8>, rest: Seq<u8>) -> Seq<u8> {
    let body = if sample.len() >= 2 && ((sample[0] == 0xFFu8 && sample[1] == 0xFEu8) || (sample[0] == 0xFEu8 && sample[1] == 0xFFu8)) {
        sample.skip(2)
    } else {
        sample
    };
    let all = body + rest;
    if all.len() % 2 != 0 { all.drop_last() } else { all }
}

/// The bytes of `a` followed by those of `b`, from index `from` of `a` on.
fn joined_bytes(a: &[u8], from: usize, b: &[u8]) -> (r: Vec<u8>)
    requires
        from <= a@.len(),
    ensures
        r@ == a@.skip(from as int) + b@,
{
    let mut r: Vec<u8> = Vec::new();
    let mut i = from;
    while i < a.len()
        invariant
            from <= i <= a@.len(),
            r@ == a@.subrange(from as int, i as int),
        decreases a@.len() - i,
    {
        r.push(a[i]);
        assert(a@.subrange(from as int, i + 1) =~= a@.subrange(from as int, i as int).push(a@[i as int]));
        i += 1;
    }
    let mut j: usize = 0;
    while j < b.len()
        invariant
            j <= b@.len(),
            r@ == a@.skip(from as int) + b@.take(j as int),
        decreases b@.len() - j,
    {
        r.push(b[j]);
        assert(b@.take(j + 1) =~= b@.take(j as int).push(b@[j as int]));
        j += 1;
    }
    assert(b@.take(b@.len() as int) =~= b@);
    assert(a@.subrange(from as int, a@.len() as int) =~= a@.skip(from as int));
    r
}

/// Reads the lines of a UTF-16 file from its first bytes and the rest.
pub fn read_utf16_lines(encoding: &TextEncoding, sample: &[u8], rest: &[u8]) -> (r: Vec<String>)
    ensures
        string_views(r@) == lines_of(decoded_text(encoding@, utf16_payload(sample@, rest@))),
{
    let bom = sample.len() >= 2 && ((sample[0] == 0xFF && sample[1] == 0xFE) || (sample[0] == 0xFE && sample[1] == 0xFF));
    let from: usize = if bom { 2 } else { 0 };
    let mut buffer = joined_bytes(sample, from, rest);
    proof {
        assert(sample@.skip(0) =~= sample@);
    }
    if buffer.len() % 2 != 0 {
        buffer.pop();
    }
    decode_buffer_to_lines(encoding, buffer.as_slice(), "UTF-16 ")
}

/// Reads the lines of a file in another encoding from its first bytes and
/// the rest.
pub fn read_encoded_lines(encoding: &TextEncoding, sample: &[u8], rest: &[u8]) -> (r: Vec<String>)
    ensures
        string_views(r@) == lines_of(decoded_text(encoding@, sample@ + rest@)),
{
    let buffer = joined_bytes(sample, 0, rest);
    proof {
        assert(sample@.skip(0) =~= sample@);
    }
    decode_buffer_to_lines(encoding, buffer.as_slice(), "")
}

/// The lines of a text file in the encoding of this name: UTF-8 is read
/// line by line, UTF-16 and other encodings are decoded whole.
pub open spec fn text_file_lines(encoding: Seq<char>, sample: Seq<u8>, rest: Seq<u8>) -> Seq<Seq<char>> {
    if encoding == "UTF-8"@ {
        utf8_file_lines(sample, rest)
    } else if encoding == "UTF-16LE"@ || encoding == "UTF-16BE"@ {
        lines_of(decoded_text(encoding, utf16_payload(sample, rest)))
    } else {
        lines_of(decoded_text(encoding, sample + rest))
    }
}

/// Reads a text file, given its first bytes (the sample) and the rest: the
/// encoding is chosen from the qualifier and the sample, and the lines are
/// read in it. Returns the lines and the encoding's name.
pub fn decode_text_file(qualifier: Option<&str>, sample: &[u8], rest: &[u8]) -> (r: (Vec<String>, String))
    ensures
        r.1@ == chosen_encoding(opt_text(qualifier), sample@),
        string_views(r.0@) == text_file_lines(r.1@, sample@, rest@),
{
    let encoding = choose_encoding(qualifier, sample);
    let name = encoding.name().to_owned();
    let lines = if encoding.is_utf8() {
        read_utf8_lines(sample, rest)
    } else if encoding.is_utf16() {
        read_utf16_lines(&encoding, sample, rest)
    } else {
        read_encoded_lines(&encoding, sample, rest)
    };
    (lines, name)
}

/// The search of one text file, given its first bytes and the rest: the
/// file is read in its encoding; when it has lines, they are searched.
/// Gives the lines, the merged context ranges and the encoding's name, or
/// nothing where the file is empty or does not satisfy the query (also
/// where a matched line's index plus the context passes the machine's
/// limit).
pub fn grep_context_lines(
    spec: &Query,
    context_lines: usize,
    encoding_qualifier: Option<&str>,
    sample: &[u8],
    rest: &[u8],
) -> (r: Option<(Vec<String>, Vec<(usize, usize)>, Option<String>)>)
    ensures
        ({
            let name = chosen_encoding(opt_text(encoding_qualifier), sample@);
            let lines = text_file_lines(name, sample@, rest@);
            match r {
                Some((ls, merged, enc)) => {
                    &&& string_views(ls@) == lines
                    &&& enc matches Some(n) && n@ == name
                    &&& lines.len() > 0
                    &&& spec.terms@.len() > 0
                    &&& spec.expr matches Some(e) && eval_spec(e, occurs_val(occurrences(spec.terms@, ls@)))
                    &&& matched_lines_spec(spec.terms@, positive_set(*spec), ls@).len() > 0
                    &&& fits_context(matched_lines_spec(spec.terms@, positive_set(*spec), ls@), context_lines)
                    &&& merged@ == merge_spec(ctx_ranges(
                        matched_lines_spec(spec.terms@, positive_set(*spec), ls@),
                        context_lines,
                        lines.len() as usize,
                    ))
                },
                None => lines.len() == 0 || !(
                    forall|ls: Seq<String>| string_views(ls) == lines ==> {
                        &&& spec.terms@.len() > 0
                        &&& spec.expr matches Some(e) && eval_spec(e, occurs_val(occurrences(spec.terms@, ls)))
                        &&& matched_lines_spec(spec.terms@, positive_set(*spec), ls).len() > 0
                        &&& fits_context(matched_lines_spec(spec.terms@, positive_set(*spec), ls), context_lines)
                    }
                ),
            }
        }),
{
    let (lines, name) = decode_text_file(encoding_qualifier, sample, rest);
    if lines.len() == 0 {
        return None;
    }
    match search_lines(lines.as_slice(), spec, context_lines) {
        Some(merged) => Some((lines, merged, Some(name))),
        None => None,
    }
}

} // verus!
