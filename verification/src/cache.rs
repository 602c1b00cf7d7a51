//! The session cache of search results: for each search session (its
//! `sid`), the highlight keywords and the lines of every file that matched,
//! kept in a compact form and read back as 1-based line ranges. Sessions
//! expire after a time-to-live since their last use. Time is passed in by the
//! caller, in milliseconds of a monotonic clock.
use vstd::prelude::*;
use crate::text::string_views;
use vstd::string::*;
use vstd::hash_map::StringHashMap;
use crate::query::{KeywordHighlight, highlight_text};

verus! {

/// The lines of one file, stored as a single buffer and the offsets (in
/// characters) where each line starts, with a sentinel at the end.
pub struct CompactLines {
    content: String,
    line_starts: Vec<usize>,
    lines: Ghost<Seq<Seq<char>>>,
}

impl View for CompactLines {
    type V = Seq<Seq<char>>;

    closed spec fn view(&self) -> Seq<Seq<char>> {
        self.lines@
    }
}

/// Total number of characters of the lines.
pub open spec fn total_chars(lines: Seq<Seq<char>>) -> nat
    decreases lines.len(),
{
    if lines.len() == 0 {
        0
    } else {
        total_chars(lines.drop_last()) + lines.last().len()
    }
}

/// The lines of `lines` in the 1-based range `start ..= end`, the numbers
/// outside `1 ..= lines.len()` skipped.
pub open spec fn slice_spec(lines: Seq<Seq<char>>, start: int, end: int) -> Seq<Seq<char>> {
    let lo = if start < 1 { 1 } else { start };
    let hi = if end > lines.len() { lines.len() as int } else { end };
    if lo <= hi {
        lines.subrange(lo - 1, hi)
    } else {
        Seq::empty()
    }
}

impl CompactLines {
    #[verifier::type_invariant]
    spec fn well_formed(self) -> bool {
        let n = self.lines@.len();
        &&& self.line_starts@.len() == n + 1
        &&& self.line_starts@[0] == 0
        &&& self.line_starts@[n as int] == self.content@.len()
        &&& forall|i: int| 0 <= i < n ==> #[trigger] self.line_starts@[i] <= self.line_starts@[i + 1]
        &&& forall|i: int| 0 <= i < n ==>
            self.content@.subrange(self.line_starts@[i] as int, self.line_starts@[i + 1] as int) == #[trigger] self.lines@[i]
    }

    /// The compact form of `lines`.
    pub fn from_lines(lines: Vec<String>) -> (r: CompactLines)
        requires
            total_chars(string_views(lines@)) <= usize::MAX,
        ensures
            r@ == string_views(lines@),
    {
        let ghost all = string_views(lines@);
        let mut content = String::new();
        let mut line_starts: Vec<usize> = Vec::new();
        let mut pos: usize = 0;
        let mut k: usize = 0;
        while k < lines.len()
            invariant
                k <= lines@.len(),
                all == string_views(lines@),
                total_chars(all) <= usize::MAX,
                pos == content@.len(),
                pos == total_chars(all.take(k as int)),
                line_starts@.len() == k,
                k > 0 ==> line_starts@[0] == 0,
                forall|i: int| 0 <= i < k ==> #[trigger] line_starts@[i] <= content@.len(),
                forall|i: int| 0 <= i < k - 1 ==> #[trigger] line_starts@[i] <= line_starts@[i + 1],
                forall|i: int| 0 <= i < k - 1 ==>
                    content@.subrange(line_starts@[i] as int, line_starts@[i + 1] as int) == #[trigger] all[i],
                k > 0 ==> content@.subrange(line_starts@[k - 1] as int, content@.len() as int) == all[k - 1],
            decreases lines@.len() - k,
        {
            proof {
                lemma_total_chars_take(all, k as int);
                lemma_total_chars_mono(all, k as int + 1);
            }
            let line = lines[k].as_str();
            let n = line.unicode_len();
            let ghost before = content@;
            line_starts.push(pos);
            content.append(line);
            assert(content@ == before + all[k as int]);
            assert forall|i: int| 0 <= i < k implies
                content@.subrange(line_starts@[i] as int, line_starts@[i + 1] as int) == #[trigger] all[i] by {
                if i < k - 1 {
                    assert(content@.subrange(line_starts@[i] as int, line_starts@[i + 1] as int)
                        =~= before.subrange(line_starts@[i] as int, line_starts@[i + 1] as int));
                } else {
                    assert(content@.subrange(line_starts@[i] as int, line_starts@[i + 1] as int)
                        =~= before.subrange(line_starts@[i] as int, before.len() as int));
                }
            }
            assert(content@.subrange(line_starts@[k as int] as int, content@.len() as int) =~= all[k as int]);
            pos = pos + n;
            k += 1;
        }
        assert(all.take(lines@.len() as int) =~= all);
        let ghost before_last = line_starts@;
        line_starts.push(pos);
        assert forall|i: int| 0 <= i < lines@.len() implies
            content@.subrange(line_starts@[i] as int, line_starts@[i + 1] as int) == #[trigger] all[i] by {
            if i < lines@.len() - 1 {
                assert(line_starts@[i] == before_last[i] && line_starts@[i + 1] == before_last[i + 1]);
            }
        }
        CompactLines { content, line_starts, lines: Ghost(all) }
    }

    /// The lines numbered `start ..= end` (1-based); numbers outside the
    /// file are skipped.
    pub fn get_slice(&self, start: usize, end: usize) -> (r: Vec<String>)
        requires
            start <= end + 1,
            end - start < usize::MAX,
        ensures
            string_views(r@) == slice_spec(self@, start as int, end as int),
    {
        proof {
            use_type_invariant(self);
        }
        let ghost lines = self@;
        let m = self.line_starts.len();
        let n = m - 1;
        let mut res: Vec<String> = Vec::new();
        let lo = if start < 1 { 1 } else { start };
        let hi = if end > n { n } else { end };
        if lo > hi {
            assert(string_views(res@) =~= Seq::<Seq<char>>::empty());
            return res;
        }
        let mut i = lo;
        while i <= hi
            invariant
                1 <= lo <= i <= hi + 1,
                hi <= n,
                n == lines.len(),
                n < usize::MAX,
                lines == self@,
                string_views(res@) == lines.subrange(lo - 1, i - 1),
            decreases hi + 1 - i,
        {
            let piece = self.line(i - 1);
            let ghost prev = res@;
            res.push(piece);
            assert(string_views(res@) =~= string_views(prev).push(lines[i - 1]));
            assert(lines.subrange(lo - 1, i as int) =~= lines.subrange(lo - 1, i - 1).push(lines[i - 1]));
            i += 1;
        }
        res
    }

    /// Line `k` (0-based).
    fn line(&self, k: usize) -> (r: String)
        requires
            k < self@.len(),
        ensures
            r@ == self@[k as int],
    {
        proof {
            use_type_invariant(self);
            self.lemma_starts_ordered(k as int, k as int + 1);
        }
        let m = self.line_starts.len();
        assert(k + 1 < m);
        let s = self.line_starts[k];
        let e = self.line_starts[k + 1];
        let piece = self.content.as_str().substring_char(s, e);
        piece.to_string()
    }

    /// The offsets of the lines are in order.
    proof fn lemma_starts_ordered(&self, a: int, b: int)
        requires
            self.well_formed(),
            0 <= a <= b <= self@.len(),
        ensures
            self.line_starts@[a] <= self.line_starts@[b] <= self.content@.len(),
        decreases b - a,
    {
        if a < b {
            self.lemma_starts_ordered(a + 1, b);
        } else {
            self.lemma_start_bounded(b);
        }
    }

    /// Every offset is within the buffer.
    proof fn lemma_start_bounded(&self, a: int)
        requires
            self.well_formed(),
            0 <= a <= self@.len(),
        ensures
            self.line_starts@[a] <= self.content@.len(),
        decreases self@.len() - a,
    {
        if a < self@.len() {
            self.lemma_start_bounded(a + 1);
        }
    }

    /// The number of lines.
    pub fn len(&self) -> (r: usize)
        ensures
            r == self@.len(),
    {
        proof {
            use_type_invariant(self);
        }
        self.line_starts.len() - 1
    }

    /// The memory taken: the buffer's bytes and the room reserved for the
    /// offsets (which the allocator decides: at least one offset per line
    /// and one more), saturated at `usize::MAX`.
    pub fn size_in_bytes(&self) -> (r: usize)
        ensures
            exists|cap: usize| cap >= self@.len() + 1 && r == #[trigger] size_for(self.content_chars(), cap as int),
    {
        proof {
            use_type_invariant(self);
        }
        let cap = vec_capacity(&self.line_starts);
        let text = self.content.as_str();
        let bytes = text.len();
        assert(text@ == self.content@);
        assert(bytes == utf8_len(self.content@));
        let r = match cap.checked_mul(8) {
            Some(offsets) => bytes.saturating_add(offsets),
            None => usize::MAX,
        };
        assert(r == size_for(self.content_chars(), cap as int));
        r
    }

    /// The buffer's characters: the lines one after the other.
    pub closed spec fn content_chars(&self) -> Seq<char> {
        self.content@
    }
}

/// The number of bytes of the UTF-8 encoding of `s` (as `str::len` gives it).
pub open spec fn utf8_len(s: Seq<char>) -> usize {
    vstd::utf8::encode_utf8(s).len() as usize
}

/// The memory of a buffer of characters `content` and room for `cap`
/// offsets, saturated.
pub open spec fn size_for(content: Seq<char>, cap: int) -> int {
    saturated(utf8_len(content) + cap * 8)
}

/// `x`, or `usize::MAX` where it is larger.
pub open spec fn saturated(x: int) -> int {
    if x > usize::MAX { usize::MAX as int } else { x }
}

/// `Vec::capacity`: the number of elements the vector can hold without
/// reallocating; its documentation promises at least its length.
#[verifier::external_body]
fn vec_capacity<T>(v: &Vec<T>) -> (r: usize)
    ensures
        r >= v@.len(),
{
    v.capacity()
}

/// `total_chars` of a prefix is that of the shorter prefix plus the next line.
proof fn lemma_total_chars_take(lines: Seq<Seq<char>>, k: int)
    requires
        0 <= k < lines.len(),
    ensures
        total_chars(lines.take(k + 1)) == total_chars(lines.take(k)) + lines[k].len(),
{
    assert(lines.take(k + 1).drop_last() =~= lines.take(k));
}

/// A prefix has no more characters than the whole.
proof fn lemma_total_chars_mono(lines: Seq<Seq<char>>, k: int)
    requires
        0 <= k <= lines.len(),
    ensures
        total_chars(lines.take(k)) <= total_chars(lines),
    decreases lines.len() - k,
{
    if k < lines.len() {
        lemma_total_chars_mono(lines, k + 1);
        lemma_total_chars_take(lines, k);
    } else {
        assert(lines.take(k) =~= lines);
    }
}

/// What the cache holds of one session: when it was last used, its
/// highlight keywords and the lines of each of its files.
pub struct SessionView {
    pub touched: u64,
    pub keywords: Seq<KeywordHighlight>,
    pub files: Map<Seq<char>, Seq<Seq<char>>>,
}

/// One session: its last use, keywords and files (each kept once in
/// `file_keys`, in the order they were first stored).
pub struct SessionData {
    last_touch: u64,
    keywords: Vec<KeywordHighlight>,
    files: StringHashMap<CompactLines>,
    file_keys: Vec<String>,
}

impl View for SessionData {
    type V = SessionView;

    closed spec fn view(&self) -> SessionView {
        SessionView {
            touched: self.last_touch,
            keywords: self.keywords@,
            files: self.files@.map_values(|c: CompactLines| c@),
        }
    }
}

/// The total number of bytes of the keywords' texts.
pub open spec fn keyword_bytes(ks: Seq<KeywordHighlight>) -> int
    decreases ks.len(),
{
    if ks.len() == 0 {
        0
    } else {
        keyword_bytes(ks.drop_last()) + utf8_len(highlight_text(ks.last())) as int
    }
}

impl SessionData {
    #[verifier::type_invariant]
    spec fn keys_listed(self) -> bool {
        keys_match(self.files@, self.file_keys@)
    }

    /// A session used at `now`, with these keywords and no file.
    fn fresh(keywords: Vec<KeywordHighlight>, now: u64) -> (r: SessionData)
        ensures
            r@ == (SessionView { touched: now, keywords: keywords@, files: Map::empty() }),
    {
        let r = SessionData { last_touch: now, keywords, files: StringHashMap::new(), file_keys: Vec::new() };
        assert(r@.files =~= Map::<Seq<char>, Seq<Seq<char>>>::empty());
        r
    }

    /// The memory the session takes: the keywords' bytes and the files'
    /// sizes, saturated at `usize::MAX`; the files' sizes depend on the
    /// room the allocator reserved, so only a lower bound is stated.
    pub fn size_in_bytes(&self) -> (r: usize)
        ensures
            r == usize::MAX || r >= keyword_bytes(self@.keywords),
            r <= usize::MAX,
    {
        let mut total: usize = 0;
        let mut k: usize = 0;
        while k < self.keywords.len()
            invariant
                k <= self.keywords@.len(),
                total == usize::MAX || total == keyword_bytes(self.keywords@.take(k as int)),
            decreases self.keywords@.len() - k,
        {
            assert(self.keywords@.take(k as int + 1).drop_last() =~= self.keywords@.take(k as int));
            let n = self.keywords[k].text().as_str().len();
            total = total.saturating_add(n);
            k += 1;
        }
        assert(self.keywords@.take(self.keywords@.len() as int) =~= self.keywords@);
        let mut i: usize = 0;
        while i < self.file_keys.len()
            invariant
                i <= self.file_keys@.len(),
                total == usize::MAX || total >= keyword_bytes(self.keywords@),
            decreases self.file_keys@.len() - i,
        {
            match self.files.get(self.file_keys[i].as_str()) {
                Some(c) => {
                    total = total.saturating_add(c.size_in_bytes());
                },
                None => {},
            }
            i += 1;
        }
        total
    }
}

/// `keys` lists each key of `files` once, and nothing else.
pub open spec fn keys_match(files: Map<Seq<char>, CompactLines>, keys: Seq<String>) -> bool {
    &&& forall|i: int, j: int| 0 <= i < j < keys.len() ==> keys[i]@ != keys[j]@
    &&& forall|k: Seq<char>| #[trigger] files.contains_key(k) <==> exists|i: int| 0 <= i < keys.len() && keys[i]@ == k
}

/// A session under its id.
pub struct SessionEntry {
    sid: String,
    data: SessionData,
}

/// The sessions of the entries, by id (a later entry wins).
spec fn entries_map(es: Seq<SessionEntry>) -> Map<Seq<char>, SessionView>
    decreases es.len(),
{
    if es.len() == 0 {
        Map::empty()
    } else {
        entries_map(es.drop_last()).insert(es.last().sid@, es.last().data@)
    }
}

/// No two entries share an id.
spec fn distinct_ids(es: Seq<SessionEntry>) -> bool {
    forall|i: int, j: int| 0 <= i < j < es.len() ==> es[i].sid@ != es[j].sid@
}

/// With distinct ids, the map has exactly the entries' ids, each with its
/// entry's session.
proof fn lemma_entries_map(es: Seq<SessionEntry>)
    requires
        distinct_ids(es),
    ensures
        forall|k: Seq<char>| #[trigger] entries_map(es).contains_key(k) <==> exists|i: int| 0 <= i < es.len() && es[i].sid@ == k,
        forall|i: int| 0 <= i < es.len() ==> entries_map(es)[#[trigger] es[i].sid@] == es[i].data@,
    decreases es.len(),
{
    if es.len() > 0 {
        let pre = es.drop_last();
        lemma_entries_map(pre);
        assert forall|k: Seq<char>| #[trigger] entries_map(es).contains_key(k) <==> exists|i: int| 0 <= i < es.len() && es[i].sid@ == k by {
            if entries_map(es).contains_key(k) && k != es.last().sid@ {
                assert(entries_map(pre).contains_key(k));
                let i = choose|i: int| 0 <= i < pre.len() && pre[i].sid@ == k;
                assert(es[i] == pre[i]);
            }
            if exists|i: int| 0 <= i < es.len() && es[i].sid@ == k {
                let i = choose|i: int| 0 <= i < es.len() && es[i].sid@ == k;
                if i < pre.len() {
                    assert(pre[i] == es[i]);
                    assert(entries_map(pre).contains_key(k));
                }
            }
        }
        assert forall|i: int| 0 <= i < es.len() implies entries_map(es)[#[trigger] es[i].sid@] == es[i].data@ by {
            if i < pre.len() {
                assert(pre[i] == es[i]);
                assert(es[i].sid@ != es.last().sid@);
            }
        }
    }
}

/// Removing an entry removes its id from the map.
proof fn lemma_entries_remove(es: Seq<SessionEntry>, i: int)
    requires
        distinct_ids(es),
        0 <= i < es.len(),
    ensures
        distinct_ids(es.remove(i)),
        entries_map(es.remove(i)) == entries_map(es).remove(es[i].sid@),
{
    let rs = es.remove(i);
    assert forall|a: int, b: int| 0 <= a < b < rs.len() implies rs[a].sid@ != rs[b].sid@ by {
        let a2 = if a < i { a } else { a + 1 };
        let b2 = if b < i { b } else { b + 1 };
        assert(rs[a] == es[a2] && rs[b] == es[b2]);
    }
    lemma_entries_map(es);
    lemma_entries_map(rs);
    let m1 = entries_map(rs);
    let m2 = entries_map(es).remove(es[i].sid@);
    assert forall|k: Seq<char>| #[trigger] m1.contains_key(k) <==> m2.contains_key(k) by {
        if m1.contains_key(k) {
            let a = choose|a: int| 0 <= a < rs.len() && rs[a].sid@ == k;
            let a2 = if a < i { a } else { a + 1 };
            assert(rs[a] == es[a2]);
        }
        if m2.contains_key(k) {
            let b = choose|b: int| 0 <= b < es.len() && es[b].sid@ == k;
            assert(b != i);
            let b2 = if b < i { b } else { b - 1 };
            assert(rs[b2] == es[b]);
        }
    }
    assert forall|k: Seq<char>| m1.contains_key(k) implies #[trigger] m1[k] == m2[k] by {
        let a = choose|a: int| 0 <= a < rs.len() && rs[a].sid@ == k;
        let a2 = if a < i { a } else { a + 1 };
        assert(rs[a] == es[a2]);
    }
    assert(m1 =~= m2);
}

/// The session `s` has gone unused for longer than `ttl` at `now` (a clock
/// reading before the last use counts as no time passed).
pub open spec fn expired(s: SessionView, now: u64, ttl: u64) -> bool {
    now > s.touched && now - s.touched > ttl
}

/// Session `sid` is present and not expired at `now`.
pub open spec fn live(m: Map<Seq<char>, SessionView>, sid: Seq<char>, now: u64, ttl: u64) -> bool {
    m.contains_key(sid) && !expired(m[sid], now, ttl)
}

/// The sessions after a read of `sid` at `now`: an expired session is
/// dropped, a live one is marked used at `now`.
pub open spec fn access_spec(m: Map<Seq<char>, SessionView>, sid: Seq<char>, now: u64, ttl: u64) -> Map<Seq<char>, SessionView> {
    if !m.contains_key(sid) {
        m
    } else if expired(m[sid], now, ttl) {
        m.remove(sid)
    } else {
        m.insert(sid, SessionView { touched: now, ..m[sid] })
    }
}

/// The sessions after the keywords of `sid` are set at `now`: its files
/// stay (none for a new session).
pub open spec fn put_keywords_spec(m: Map<Seq<char>, SessionView>, sid: Seq<char>, kws: Seq<KeywordHighlight>, now: u64) -> Map<Seq<char>, SessionView> {
    let files = if m.contains_key(sid) { m[sid].files } else { Map::empty() };
    m.insert(sid, SessionView { touched: now, keywords: kws, files })
}

/// The sessions after the lines of file `key` of `sid` are stored at `now`:
/// its keywords (none for a new session) and other files stay.
pub open spec fn put_lines_spec(m: Map<Seq<char>, SessionView>, sid: Seq<char>, key: Seq<char>, lines: Seq<Seq<char>>, now: u64) -> Map<Seq<char>, SessionView> {
    let kws = if m.contains_key(sid) { m[sid].keywords } else { Seq::empty() };
    let files = if m.contains_key(sid) { m[sid].files } else { Map::empty() };
    m.insert(sid, SessionView { touched: now, keywords: kws, files: files.insert(key, lines) })
}

/// What a read of lines `start ..= end` (1-based) of file `key` of a live
/// session gives: the file's line count and the lines, the range first
/// moved inside the file (a start below 1 becomes 1, past the end the last
/// line; an end before the start becomes the start, past the end the last
/// line); an empty file gives no line.
pub open spec fn lines_read(lines: Seq<Seq<char>>, start: int, end: int) -> (nat, Seq<Seq<char>>) {
    let total = lines.len() as int;
    if total == 0 {
        (0, Seq::empty())
    } else {
        let s = if start < 1 { 1 } else if start > total { total } else { start };
        let e = if end < s { s } else if end > total { total } else { end };
        (total as nat, lines.subrange(s - 1, e))
    }
}

/// The cache of search sessions, with its time-to-live in milliseconds.
/// Sessions are kept in a list with distinct ids rather than in a
/// `StringHashMap` (as the files of a session are): a session changes on
/// every use (its time of last use, its keywords and files), and vstd's
/// `StringHashMap` offers neither mutable access to a stored value nor the
/// value back from `remove`, so a stored session could not be updated.
pub struct Cache {
    ttl: u64,
    entries: Vec<SessionEntry>,
}

impl View for Cache {
    type V = Map<Seq<char>, SessionView>;

    closed spec fn view(&self) -> Map<Seq<char>, SessionView> {
        entries_map(self.entries@)
    }
}

impl Cache {
    #[verifier::type_invariant]
    spec fn ids_distinct(self) -> bool {
        distinct_ids(self.entries@)
    }

    /// The time-to-live of a session, in milliseconds.
    pub closed spec fn ttl_spec(&self) -> u64 {
        self.ttl
    }

    /// An empty cache whose sessions live `ttl_ms` milliseconds after their
    /// last use.
    pub fn new(ttl_ms: u64) -> (r: Cache)
        ensures
            r@ == Map::<Seq<char>, SessionView>::empty(),
            r.ttl_spec() == ttl_ms,
    {
        let r = Cache { ttl: ttl_ms, entries: Vec::new() };
        assert(r@ =~= Map::<Seq<char>, SessionView>::empty());
        r
    }

    /// The index of the entry of `sid`.
    fn find(&self, sid: &String) -> (r: Option<usize>)
        ensures
            r matches Some(i) ==> i < self.entries@.len() && self.entries@[i as int].sid@ == sid@
                && self@.contains_key(sid@) && self@[sid@] == self.entries@[i as int].data@,
            r is None ==> !self@.contains_key(sid@),
    {
        proof {
            use_type_invariant(self);
            lemma_entries_map(self.entries@);
        }
        let mut i: usize = 0;
        while i < self.entries.len()
            invariant
                i <= self.entries@.len(),
                forall|j: int| 0 <= j < i ==> self.entries@[j].sid@ != sid@,
            decreases self.entries@.len() - i,
        {
            if self.entries[i].sid == *sid {
                proof {
                    use_type_invariant(self);
                    lemma_entries_map(self.entries@);
                    assert(self.entries@[i as int].sid@ == sid@);
                    assert(self@.contains_key(self.entries@[i as int].sid@));
                }
                return Some(i);
            }
            i += 1;
        }
        None
    }

    /// Takes the entry at `i` out.
    fn take(&mut self, i: usize) -> (r: SessionEntry)
        requires
            i < old(self).entries@.len(),
        ensures
            r == old(self).entries@[i as int],
            final(self)@ == old(self)@.remove(r.sid@),
            final(self).ttl == old(self).ttl,
    {
        proof {
            use_type_invariant(&*self);
            lemma_entries_remove(self.entries@, i as int);
        }
        let mut entries: Vec<SessionEntry> = Vec::new();
        std::mem::swap(&mut entries, &mut self.entries);
        let r = entries.remove(i);
        self.entries = entries;
        r
    }

    /// Puts an entry whose id is not in the cache.
    fn put_back(&mut self, e: SessionEntry)
        requires
            !old(self)@.contains_key(e.sid@),
        ensures
            final(self)@ == old(self)@.insert(e.sid@, e.data@),
            final(self).ttl == old(self).ttl,
    {
        proof {
            use_type_invariant(&*self);
            lemma_entries_map(self.entries@);
        }
        let ghost before = self.entries@;
        let mut entries: Vec<SessionEntry> = Vec::new();
        std::mem::swap(&mut entries, &mut self.entries);
        entries.push(e);
        proof {
            assert(entries@.drop_last() =~= before);
            assert forall|i: int, j: int| 0 <= i < j < entries@.len() implies entries@[i].sid@ != entries@[j].sid@ by {
                if j == before.len() {
                    assert(entries@[i] == before[i]);
                }
            }
        }
        self.entries = entries;
    }

    /// Whether session data `d` has expired at `now`.
    fn is_expired(&self, d: &SessionData, now: u64) -> (r: bool)
        ensures
            r == expired(d@, now, self.ttl),
    {
        now > d.last_touch && now - d.last_touch > self.ttl
    }

    /// Sets the highlight keywords of session `sid` (creating it), marking
    /// it used at `now`.
    pub fn put_keywords(&mut self, sid: &str, kws: Vec<KeywordHighlight>, now: u64)
        ensures
            final(self)@ == put_keywords_spec(old(self)@, sid@, kws@, now),
            final(self).ttl_spec() == old(self).ttl_spec(),
    {
        let key = String::from_str(sid);
        match self.find(&key) {
            Some(i) => {
                let e = self.take(i);
                proof {
                    use_type_invariant(&e.data);
                }
                let SessionEntry { sid: id, data } = e;
                let SessionData { last_touch: _, keywords: _, files, file_keys } = data;
                let data = SessionData { last_touch: now, keywords: kws, files, file_keys };
                self.put_back(SessionEntry { sid: id, data });
            },
            None => {
                self.put_back(SessionEntry { sid: key, data: SessionData::fresh(kws, now) });
            },
        }
        assert(final(self)@ =~= put_keywords_spec(old(self)@, sid@, kws@, now));
    }

    /// The highlight keywords of session `sid` if it is live at `now`
    /// (marking it used); an expired session is dropped.
    pub fn get_keywords(&mut self, sid: &str, now: u64) -> (r: Option<Vec<KeywordHighlight>>)
        ensures
            final(self)@ == access_spec(old(self)@, sid@, now, old(self).ttl_spec()),
            final(self).ttl_spec() == old(self).ttl_spec(),
            r is Some <==> live(old(self)@, sid@, now, old(self).ttl_spec()),
            r matches Some(v) ==> v@ == old(self)@[sid@].keywords,
    {
        let key = String::from_str(sid);
        match self.find(&key) {
            None => None,
            Some(i) => {
                let e = self.take(i);
                if self.is_expired(&e.data, now) {
                    return None;
                }
                proof {
                    use_type_invariant(&e.data);
                }
                let SessionEntry { sid: id, data } = e;
                let SessionData { last_touch: _, keywords, files, file_keys } = data;
                let copy = copy_keywords(&keywords);
                let data = SessionData { last_touch: now, keywords, files, file_keys };
                self.put_back(SessionEntry { sid: id, data });
                assert(final(self)@ =~= access_spec(old(self)@, sid@, now, old(self).ttl_spec()));
                Some(copy)
            },
        }
    }

    /// Stores the lines of file `file_key` in session `sid` (creating it),
    /// replacing any earlier lines of that file, and marks it used at `now`.
    pub fn put_lines(&mut self, sid: &str, file_key: &str, lines: Vec<String>, now: u64)
        requires
            total_chars(string_views(lines@)) <= usize::MAX,
        ensures
            final(self)@ == put_lines_spec(old(self)@, sid@, file_key@, string_views(lines@), now),
            final(self).ttl_spec() == old(self).ttl_spec(),
    {
        let key = String::from_str(sid);
        let compact = CompactLines::from_lines(lines);
        match self.find(&key) {
            Some(i) => {
                let e = self.take(i);
                proof {
                    use_type_invariant(&e.data);
                }
                let SessionEntry { sid: id, data } = e;
                let SessionData { last_touch: _, keywords, files, file_keys } = data;
                let (files, file_keys) = add_file(files, file_keys, file_key, compact);
                let data = SessionData { last_touch: now, keywords, files, file_keys };
                self.put_back(SessionEntry { sid: id, data });
            },
            None => {
                let empty_files: StringHashMap<CompactLines> = StringHashMap::new();
                let empty_keys: Vec<String> = Vec::new();
                assert(keys_match(empty_files@, empty_keys@));
                let (files, file_keys) = add_file(empty_files, empty_keys, file_key, compact);
                let data = SessionData { last_touch: now, keywords: Vec::new(), files, file_keys };
                self.put_back(SessionEntry { sid: key, data });
            },
        }
        proof {
            let m = old(self)@;
            let files = if m.contains_key(sid@) { m[sid@].files } else { Map::empty() };
            assert(final(self)@[sid@].files =~= files.insert(file_key@, string_views(lines@)));
        }
        assert(final(self)@ =~= put_lines_spec(old(self)@, sid@, file_key@, string_views(lines@), now));
    }

    /// Lines `start ..= end` (1-based) of file `file_key` of session `sid`
    /// with the file's line count, if the session is live at `now` (marking
    /// it used) and holds the file; see `lines_read` for how the range is
    /// placed in the file. An expired session is dropped.
    pub fn get_lines_slice(&mut self, sid: &str, file_key: &str, start: usize, end: usize, now: u64) -> (r: Option<(usize, Vec<String>)>)
        ensures
            final(self)@ == access_spec(old(self)@, sid@, now, old(self).ttl_spec()),
            final(self).ttl_spec() == old(self).ttl_spec(),
            r is Some <==> (live(old(self)@, sid@, now, old(self).ttl_spec()) && old(self)@[sid@].files.contains_key(file_key@)),
            r matches Some(p) ==> ({
                let read = lines_read(old(self)@[sid@].files[file_key@], start as int, end as int);
                p.0 == read.0 && string_views(p.1@) == read.1
            }),
    {
        let key = String::from_str(sid);
        match self.find(&key) {
            None => None,
            Some(i) => {
                let e = self.take(i);
                if self.is_expired(&e.data, now) {
                    return None;
                }
                proof {
                    use_type_invariant(&e.data);
                }
                let SessionEntry { sid: id, data } = e;
                let SessionData { last_touch: _, keywords, files, file_keys } = data;
                let out = match files.get(file_key) {
                    Some(compact) => {
                        let total = compact.len();
                        if total == 0 {
                            let empty: Vec<String> = Vec::new();
                            assert(string_views(empty@) =~= Seq::<Seq<char>>::empty());
                            Some((0, empty))
                        } else {
                            let s0 = if start < 1 { 1 } else { start };
                            let s = if s0 > total { total } else { s0 };
                            let e0 = if end < s { s } else { end };
                            let eidx = if e0 > total { total } else { e0 };
                            let slice = compact.get_slice(s, eidx);
                            Some((total, slice))
                        }
                    },
                    None => None,
                };
                let data = SessionData { last_touch: now, keywords, files, file_keys };
                self.put_back(SessionEntry { sid: id, data });
                assert(final(self)@ =~= access_spec(old(self)@, sid@, now, old(self).ttl_spec()));
                out
            },
        }
    }

    /// Drops session `sid` and everything it holds.
    pub fn remove_sid(&mut self, sid: &str)
        ensures
            final(self)@ == old(self)@.remove(sid@),
            final(self).ttl_spec() == old(self).ttl_spec(),
    {
        let key = String::from_str(sid);
        match self.find(&key) {
            Some(i) => {
                let _gone = self.take(i);
            },
            None => {
                assert(old(self)@.remove(sid@) =~= old(self)@);
            },
        }
    }

    /// The keys of the files of session `sid`, each once (in the order they
    /// were first stored), if the session is live at `now` (marking it
    /// used). An expired session is dropped.
    pub fn get_file_list(&mut self, sid: &str, now: u64) -> (r: Option<Vec<String>>)
        ensures
            final(self)@ == access_spec(old(self)@, sid@, now, old(self).ttl_spec()),
            final(self).ttl_spec() == old(self).ttl_spec(),
            r is Some <==> live(old(self)@, sid@, now, old(self).ttl_spec()),
            r matches Some(v) ==> lists_keys(v@, old(self)@[sid@].files),
    {
        let key = String::from_str(sid);
        match self.find(&key) {
            None => None,
            Some(i) => {
                let e = self.take(i);
                if self.is_expired(&e.data, now) {
                    return None;
                }
                proof {
                    use_type_invariant(&e.data);
                }
                let ghost e_view = e.data@;
                let SessionEntry { sid: id, data } = e;
                let SessionData { last_touch: _, keywords, files, file_keys } = data;
                let mut list: Vec<String> = Vec::new();
                let mut k: usize = 0;
                while k < file_keys.len()
                    invariant
                        k <= file_keys@.len(),
                        list@ == file_keys@.take(k as int),
                    decreases file_keys@.len() - k,
                {
                    list.push(file_keys[k].clone());
                    assert(file_keys@.take(k as int + 1) =~= file_keys@.take(k as int).push(file_keys@[k as int]));
                    k += 1;
                }
                assert(file_keys@.take(file_keys@.len() as int) =~= file_keys@);
                assert(keys_match(files@, file_keys@));
                assert(forall|i: int, j: int| 0 <= i < j < list@.len() ==> list@[i]@ != list@[j]@);
                assert(old(self)@[sid@] == e_view);
                assert forall|k: Seq<char>| old(self)@[sid@].files.contains_key(k) <==> exists|i: int| 0 <= i < list@.len() && #[trigger] list@[i]@ == k by {
                    assert(old(self)@[sid@].files.contains_key(k) == files@.contains_key(k));
                }
                assert(lists_keys(list@, old(self)@[sid@].files));
                let data = SessionData { last_touch: now, keywords, files, file_keys };
                self.put_back(SessionEntry { sid: id, data });
                assert(final(self)@ =~= access_spec(old(self)@, sid@, now, old(self).ttl_spec()));
                Some(list)
            },
        }
    }

    /// Drops every session that has expired at `now`.
    pub fn remove_expired(&mut self, now: u64)
        ensures
            final(self)@ == old(self)@.remove_keys(Set::new(|k: Seq<char>| old(self)@.contains_key(k) && expired(old(self)@[k], now, old(self).ttl_spec()))),
            final(self).ttl_spec() == old(self).ttl_spec(),
    {
        let ghost m0 = self@;
        let ghost dead_set = Set::new(|k: Seq<char>| m0.contains_key(k) && expired(m0[k], now, self.ttl));
        proof {
            use_type_invariant(&*self);
            lemma_entries_map(self.entries@);
        }
        let mut dead: Vec<String> = Vec::new();
        let mut i: usize = 0;
        while i < self.entries.len()
            invariant
                i <= self.entries@.len(),
                m0 == self@,
                distinct_ids(self.entries@),
                forall|k: Seq<char>| #[trigger] listed(dead@, dead@.len() as int, k) <==> expired_among(self.entries@, i as int, k, now, self.ttl),
            decreases self.entries@.len() - i,
        {
            let ghost before = dead@;
            if self.is_expired(&self.entries[i].data, now) {
                dead.push(self.entries[i].sid.clone());
                assert forall|k: Seq<char>| #[trigger] listed(dead@, dead@.len() as int, k) <==> expired_among(self.entries@, i + 1, k, now, self.ttl) by {
                    if listed(dead@, dead@.len() as int, k) {
                        let j = choose|j: int| 0 <= j < dead@.len() && #[trigger] dead@[j]@ == k;
                        if j < before.len() {
                            assert(before[j] == dead@[j]);
                            assert(listed(before, before.len() as int, k));
                        } else {
                            assert(self.entries@[i as int].sid@ == k);
                        }
                    }
                    if expired_among(self.entries@, i + 1, k, now, self.ttl) {
                        let j = choose|j: int| 0 <= j < i + 1 && #[trigger] self.entries@[j].sid@ == k && expired(self.entries@[j].data@, now, self.ttl);
                        if j < i {
                            assert(expired_among(self.entries@, i as int, k, now, self.ttl));
                            assert(listed(before, before.len() as int, k));
                            let jj = choose|jj: int| 0 <= jj < before.len() && #[trigger] before[jj]@ == k;
                            assert(dead@[jj] == before[jj]);
                        } else {
                            assert(dead@[before.len() as int]@ == k);
                        }
                    }
                }
            } else {
                assert forall|k: Seq<char>| #[trigger] listed(dead@, dead@.len() as int, k) <==> expired_among(self.entries@, i + 1, k, now, self.ttl) by {
                    if expired_among(self.entries@, i + 1, k, now, self.ttl) {
                        let j = choose|j: int| 0 <= j < i + 1 && #[trigger] self.entries@[j].sid@ == k && expired(self.entries@[j].data@, now, self.ttl);
                        assert(j < i);
                        assert(expired_among(self.entries@, i as int, k, now, self.ttl));
                    }
                    if listed(dead@, dead@.len() as int, k) {
                        assert(expired_among(self.entries@, i as int, k, now, self.ttl));
                        let j = choose|j: int| 0 <= j < i && #[trigger] self.entries@[j].sid@ == k && expired(self.entries@[j].data@, now, self.ttl);
                        assert(expired_among(self.entries@, i + 1, k, now, self.ttl));
                    }
                }
            }
            i += 1;
        }
        proof {
            assert forall|k: Seq<char>| dead_set.contains(k) <==> #[trigger] listed(dead@, dead@.len() as int, k) by {
                if dead_set.contains(k) {
                    let j = choose|j: int| 0 <= j < self.entries@.len() && self.entries@[j].sid@ == k;
                    assert(m0[k] == self.entries@[j].data@);
                    assert(expired_among(self.entries@, self.entries@.len() as int, k, now, self.ttl));
                }
                if listed(dead@, dead@.len() as int, k) {
                    let j = choose|j: int| 0 <= j < self.entries@.len() && #[trigger] self.entries@[j].sid@ == k && expired(self.entries@[j].data@, now, self.ttl);
                    assert(m0.contains_key(self.entries@[j].sid@));
                }
            }
        }
        let mut d: usize = 0;
        while d < dead.len()
            invariant
                d <= dead@.len(),
                self.ttl == old(self).ttl,
                self@ == m0.remove_keys(Set::new(|k: Seq<char>| listed(dead@, d as int, k))),
            decreases dead@.len() - d,
        {
            self.remove_sid(dead[d].as_str());
            assert(self@ =~= m0.remove_keys(Set::new(|k: Seq<char>| listed(dead@, d + 1, k)))) by {
                assert forall|k: Seq<char>| #[trigger] listed(dead@, d + 1, k) <==> (listed(dead@, d as int, k) || k == dead@[d as int]@) by {
                    if listed(dead@, d + 1, k) && k != dead@[d as int]@ {
                        let j = choose|j: int| 0 <= j < d + 1 && #[trigger] dead@[j]@ == k;
                        assert(j < d);
                    }
                }
            }
            d += 1;
        }
        assert(Set::new(|k: Seq<char>| listed(dead@, dead@.len() as int, k)) =~= dead_set);
    }
}

/// Some of the first `n` strings of `v` is `k`.
spec fn listed(v: Seq<String>, n: int, k: Seq<char>) -> bool {
    exists|j: int| 0 <= j < n && #[trigger] v[j]@ == k
}

/// Some of the first `n` entries is the session `k`, expired at `now`.
spec fn expired_among(es: Seq<SessionEntry>, n: int, k: Seq<char>, now: u64, ttl: u64) -> bool {
    exists|j: int| 0 <= j < n && #[trigger] es[j].sid@ == k && expired(es[j].data@, now, ttl)
}

/// `v` lists each key of `m` once, and nothing else.
pub open spec fn lists_keys(v: Seq<String>, m: Map<Seq<char>, Seq<Seq<char>>>) -> bool {
    &&& forall|i: int, j: int| 0 <= i < j < v.len() ==> v[i]@ != v[j]@
    &&& forall|k: Seq<char>| m.contains_key(k) <==> exists|i: int| 0 <= i < v.len() && #[trigger] v[i]@ == k
}

/// A copy of the keywords.
fn copy_keywords(ks: &Vec<KeywordHighlight>) -> (r: Vec<KeywordHighlight>)
    ensures
        r@ == ks@,
{
    let mut out: Vec<KeywordHighlight> = Vec::new();
    let mut i: usize = 0;
    while i < ks.len()
        invariant
            i <= ks@.len(),
            out@ == ks@.take(i as int),
        decreases ks@.len() - i,
    {
        out.push(ks[i].duplicate());
        assert(ks@.take(i as int + 1) =~= ks@.take(i as int).push(ks@[i as int]));
        i += 1;
    }
    assert(ks@.take(ks@.len() as int) =~= ks@);
    out
}

/// The files with `lines` stored under `key`, the key listed once.
fn add_file(files: StringHashMap<CompactLines>, keys: Vec<String>, key: &str, lines: CompactLines) -> (r: (StringHashMap<CompactLines>, Vec<String>))
    requires
        keys_match(files@, keys@),
    ensures
        r.0@ == files@.insert(key@, lines),
        keys_match(r.0@, r.1@),
{
    let mut files = files;
    let mut keys = keys;
    let known = files.contains_key(key);
    files.insert(String::from_str(key), lines);
    if !known {
        let ghost before = keys@;
        keys.push(String::from_str(key));
        assert forall|k: Seq<char>| #[trigger] files@.contains_key(k) <==> exists|i: int| 0 <= i < keys@.len() && keys@[i]@ == k by {
            if files@.contains_key(k) && k != key@ {
                let i = choose|i: int| 0 <= i < before.len() && before[i]@ == k;
                assert(keys@[i] == before[i]);
            }
            if k == key@ {
                assert(keys@[before.len() as int]@ == k);
            }
            if exists|i: int| 0 <= i < keys@.len() && keys@[i]@ == k {
                let i = choose|i: int| 0 <= i < keys@.len() && keys@[i]@ == k;
                if i < before.len() {
                    assert(before[i] == keys@[i]);
                }
            }
        }
        assert forall|i: int, j: int| 0 <= i < j < keys@.len() implies keys@[i]@ != keys@[j]@ by {
            if j == before.len() {
                assert(keys@[i] == before[i]);
            }
        }
    } else {
        assert forall|k: Seq<char>| #[trigger] files@.contains_key(k) <==> exists|i: int| 0 <= i < keys@.len() && keys@[i]@ == k by {
            if k == key@ {
                assert(files@.contains_key(key@));
            }
        }
    }
    (files, keys)
}

/// Keywords stored for a session are read back, unchanged, by a read no
/// later than the time-to-live after the write.
pub proof fn lemma_keywords_read_back(m: Map<Seq<char>, SessionView>, sid: Seq<char>, kws: Seq<KeywordHighlight>, t_put: u64, t_get: u64, ttl: u64)
    requires
        t_get <= t_put + ttl,
    ensures
        live(put_keywords_spec(m, sid, kws, t_put), sid, t_get, ttl),
        put_keywords_spec(m, sid, kws, t_put)[sid].keywords == kws,
{
}

/// Lines stored for a file of a session are read back by a read no later
/// than the time-to-live after the write: any range gives what it gives of
/// the stored lines, and the whole range gives all of them.
pub proof fn lemma_lines_read_back(
    m: Map<Seq<char>, SessionView>,
    sid: Seq<char>,
    key: Seq<char>,
    lines: Seq<Seq<char>>,
    t_put: u64,
    t_get: u64,
    ttl: u64,
)
    requires
        t_get <= t_put + ttl,
    ensures
        live(put_lines_spec(m, sid, key, lines, t_put), sid, t_get, ttl),
        put_lines_spec(m, sid, key, lines, t_put)[sid].files.contains_key(key),
        put_lines_spec(m, sid, key, lines, t_put)[sid].files[key] == lines,
        lines.len() > 0 ==> lines_read(lines, 1, lines.len() as int) == (lines.len(), lines),
{
    if lines.len() > 0 {
        assert(lines.subrange(0, lines.len() as int) =~= lines);
    }
}

/// Storing the lines of a file keeps the session's keywords and its other
/// files; setting the keywords keeps its files.
pub proof fn lemma_writes_keep_the_rest(
    m: Map<Seq<char>, SessionView>,
    sid: Seq<char>,
    key: Seq<char>,
    lines: Seq<Seq<char>>,
    kws: Seq<KeywordHighlight>,
    now: u64,
)
    requires
        m.contains_key(sid),
    ensures
        put_lines_spec(m, sid, key, lines, now)[sid].keywords == m[sid].keywords,
        forall|k: Seq<char>| k != key && #[trigger] m[sid].files.contains_key(k) ==> put_lines_spec(m, sid, key, lines, now)[sid].files.contains_key(k)
            && put_lines_spec(m, sid, key, lines, now)[sid].files[k] == m[sid].files[k],
        put_keywords_spec(m, sid, kws, now)[sid].files == m[sid].files,
{
}

/// Writing to or reading one session leaves every other session as it was.
pub proof fn lemma_sessions_independent(
    m: Map<Seq<char>, SessionView>,
    sid: Seq<char>,
    other: Seq<char>,
    key: Seq<char>,
    lines: Seq<Seq<char>>,
    kws: Seq<KeywordHighlight>,
    now: u64,
    ttl: u64,
)
    requires
        sid != other,
    ensures
        put_keywords_spec(m, sid, kws, now).contains_key(other) == m.contains_key(other),
        put_lines_spec(m, sid, key, lines, now).contains_key(other) == m.contains_key(other),
        access_spec(m, sid, now, ttl).contains_key(other) == m.contains_key(other),
        m.remove(sid).contains_key(other) == m.contains_key(other),
        m.contains_key(other) ==> put_keywords_spec(m, sid, kws, now)[other] == m[other]
            && put_lines_spec(m, sid, key, lines, now)[other] == m[other]
            && access_spec(m, sid, now, ttl)[other] == m[other]
            && m.remove(sid)[other] == m[other],
{
}

/// After a session is removed, or once it has expired, no read finds it,
/// and a read of an expired session drops it.
pub proof fn lemma_gone_sessions(m: Map<Seq<char>, SessionView>, sid: Seq<char>, now: u64, ttl: u64)
    ensures
        !live(m.remove(sid), sid, now, ttl),
        m.contains_key(sid) && expired(m[sid], now, ttl) ==> !live(m, sid, now, ttl)
            && !access_spec(m, sid, now, ttl).contains_key(sid),
{
}

/// A lower-case hexadecimal digit.
pub open spec fn is_hex_lower(c: char) -> bool {
    ('0' <= c <= '9') || ('a' <= c <= 'f')
}

/// `s` is a version 4 UUID in its hyphenated, lower-case form: 36
/// characters, hyphens at 8, 13, 18 and 23, hexadecimal digits elsewhere,
/// the version digit `4` at 14 and the variant digit (`8` to `b`) at 19.
pub open spec fn is_v4_uuid_text(s: Seq<char>) -> bool {
    &&& s.len() == 36
    &&& forall|i: int| 0 <= i < 36 ==> (if i == 8 || i == 13 || i == 18 || i == 23 { s[i] == '-' } else { is_hex_lower(#[trigger] s[i]) })
    &&& s[14] == '4'
    &&& (s[19] == '8' || s[19] == '9' || s[19] == 'a' || s[19] == 'b')
}

/// A new session id: `uuid::Uuid::new_v4()` written with `to_string`
/// (random bits, so only its form is stated).
#[verifier::external_body]
pub fn new_sid() -> (r: String)
    ensures
        is_v4_uuid_text(r@),
{
    uuid::Uuid::new_v4().to_string()
}

} // verus!
