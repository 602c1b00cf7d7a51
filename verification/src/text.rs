//! Character-level helpers shared by the parsers and formatters of this crate.
use vstd::prelude::*;

verus! {

/// The characters of `s`, in order.
#[verifier::external_body]
pub(crate) fn chars_of(s: &str) -> (v: Vec<char>)
    ensures
        v@ == s@,
{
    s.chars().collect()
}

/// A string holding exactly the characters of `v`.
#[verifier::external_body]
pub(crate) fn string_of(v: &[char]) -> (s: String)
    ensures
        s@ == v@,
{
    v.iter().collect()
}

/// `needle` occurs as a contiguous part of `hay`.
pub open spec fn is_substring(needle: Seq<char>, hay: Seq<char>) -> bool {
    exists|i: int| 0 <= i <= hay.len() - needle.len() && #[trigger] hay.subrange(i, i + needle.len()) == needle
}

/// Whether `needle` occurs in `hay` (as `str::contains` with a string
/// pattern).
pub(crate) fn str_contains(hay: &str, needle: &str) -> (r: bool)
    ensures
        r == is_substring(needle@, hay@),
{
    let h = chars_of(hay);
    let n = chars_of(needle);
    match find_from(&h, &n, 0) {
        Some(i) => {
            assert(h@.subrange(i as int, i + n@.len()) == n@);
            true
        },
        None => {
            assert(!is_substring(needle@, hay@)) by {
                if is_substring(needle@, hay@) {
                    let i = choose|i: int| 0 <= i <= hay@.len() - needle@.len()
                        && #[trigger] hay@.subrange(i, i + needle@.len()) == needle@;
                    assert(occurs_at(h@, n@, i));
                }
            }
            false
        },
    }
}

/// The Unicode lower-case mapping that `str::to_lowercase` applies.
pub uninterp spec fn unicode_lowercase(s: Seq<char>) -> Seq<char>;

/// `str::to_lowercase`: the Unicode lower-case form of `s`.
#[verifier::external_body]
pub(crate) fn lowercase_of(s: &str) -> (r: String)
    ensures
        r@ == unicode_lowercase(s@),
{
    s.to_lowercase()
}

/// The Unicode upper-case mapping that `str::to_uppercase` applies.
pub uninterp spec fn unicode_uppercase(s: Seq<char>) -> Seq<char>;

/// `str::to_uppercase`: the Unicode upper-case form of `s`.
#[verifier::external_body]
pub(crate) fn uppercase_of(s: &str) -> (r: String)
    ensures
        r@ == unicode_uppercase(s@),
{
    s.to_uppercase()
}

/// The view of an optional string.
pub open spec fn opt_view(s: Option<String>) -> Option<Seq<char>> {
    match s {
        Some(t) => Some(t@),
        None => None,
    }
}

/// The views of a list of strings.
pub open spec fn string_views(v: Seq<String>) -> Seq<Seq<char>> {
    v.map_values(|s: String| s@)
}

/// `s` begins with `p`.
pub open spec fn seq_starts_with(s: Seq<char>, p: Seq<char>) -> bool {
    p.len() <= s.len() && s.subrange(0, p.len() as int) == p
}

/// `s` ends with `p`.
pub open spec fn seq_ends_with(s: Seq<char>, p: Seq<char>) -> bool {
    p.len() <= s.len() && s.subrange(s.len() - p.len(), s.len() as int) == p
}

/// The rest of `s` after `prefix`, if `s` begins with it (as
/// `str::strip_prefix`).
pub(crate) fn strip_prefix_str<'a>(s: &'a str, prefix: &str) -> (r: Option<&'a str>)
    ensures
        r is Some <==> seq_starts_with(s@, prefix@),
        r matches Some(rest) ==> rest@ == s@.skip(prefix@.len() as int),
{
    let sv = chars_of(s);
    let pv = chars_of(prefix);
    if pv.len() > sv.len() {
        return None;
    }
    let mut i: usize = 0;
    while i < pv.len()
        invariant
            pv@ == prefix@,
            sv@ == s@,
            pv@.len() <= sv@.len(),
            i <= pv@.len(),
            forall|j: int| 0 <= j < i ==> sv@[j] == pv@[j],
        decreases pv@.len() - i,
    {
        if sv[i] != pv[i] {
            assert(s@.subrange(0, prefix@.len() as int)[i as int] != prefix@[i as int]);
            return None;
        }
        i += 1;
    }
    assert(s@.subrange(0, prefix@.len() as int) =~= prefix@);
    let rest = s.substring_char(pv.len(), sv.len());
    assert(rest@ =~= s@.skip(prefix@.len() as int));
    Some(rest)
}

/// Tests whether `v` holds the character `c`.
pub fn has_char(v: &[char], c: char) -> (r: bool)
    ensures
        r == v@.contains(c),
{
    let mut i: usize = 0;
    while i < v.len()
        invariant
            i <= v.len(),
            forall|j: int| 0 <= j < i ==> v@[j] != c,
        decreases v.len() - i,
    {
        if v[i] == c {
            assert(v@[i as int] == c);
            return true;
        }
        i += 1;
    }
    false
}

/// The Unicode `White_Space` property, which `char::is_whitespace` tests.
pub open spec fn is_ws(c: char) -> bool {
    let u = c as u32;
    (0x09 <= u <= 0x0D) || u == 0x20 || u == 0x85 || u == 0xA0 || u == 0x1680
        || (0x2000 <= u <= 0x200A) || u == 0x2028 || u == 0x2029 || u == 0x202F
        || u == 0x205F || u == 0x3000
}

/// Tests the Unicode `White_Space` property of `c`.
pub fn is_whitespace(c: char) -> (r: bool)
    ensures
        r == is_ws(c),
{
    let u = c as u32;
    (0x09 <= u && u <= 0x0D) || u == 0x20 || u == 0x85 || u == 0xA0 || u == 0x1680
        || (0x2000 <= u && u <= 0x200A) || u == 0x2028 || u == 0x2029 || u == 0x202F
        || u == 0x205F || u == 0x3000
}

} // verus!

verus! {

/// `s` without its leading white space.
pub open spec fn trim_start_spec(s: Seq<char>) -> Seq<char>
    decreases s.len(),
{
    if s.len() > 0 && is_ws(s[0]) {
        trim_start_spec(s.drop_first())
    } else {
        s
    }
}

/// `s` without its trailing white space.
pub open spec fn trim_end_spec(s: Seq<char>) -> Seq<char>
    decreases s.len(),
{
    if s.len() > 0 && is_ws(s.last()) {
        trim_end_spec(s.drop_last())
    } else {
        s
    }
}

/// `s` without leading and trailing white space, as `str::trim` gives it.
pub open spec fn trim_spec(s: Seq<char>) -> Seq<char> {
    trim_end_spec(trim_start_spec(s))
}

/// Trimming keeps a contiguous part of the text: every character of the
/// result is one of the text's.
pub proof fn lemma_trim_part(s: Seq<char>)
    ensures
        exists|a: int, b: int| 0 <= a <= b <= s.len() && trim_spec(s) == s.subrange(a, b),
{
    lemma_trim_start_part(s);
    let a = choose|a: int| 0 <= a <= s.len() && trim_start_spec(s) == s.subrange(a, s.len() as int);
    let u = trim_start_spec(s);
    lemma_trim_end_part(u);
    let b = choose|b: int| 0 <= b <= u.len() && trim_end_spec(u) == u.subrange(0, b);
    assert(s.subrange(a, s.len() as int).subrange(0, b) =~= s.subrange(a, a + b));
}

proof fn lemma_trim_start_part(s: Seq<char>)
    ensures
        exists|a: int| 0 <= a <= s.len() && trim_start_spec(s) == s.subrange(a, s.len() as int),
    decreases s.len(),
{
    if s.len() > 0 && is_ws(s[0]) {
        lemma_trim_start_part(s.drop_first());
        let a = choose|a: int| 0 <= a <= s.drop_first().len() && trim_start_spec(s.drop_first()) == s.drop_first().subrange(a, s.drop_first().len() as int);
        assert(s.drop_first().subrange(a, s.drop_first().len() as int) =~= s.subrange(a + 1, s.len() as int));
    } else {
        assert(s.subrange(0, s.len() as int) =~= s);
    }
}

proof fn lemma_trim_end_part(s: Seq<char>)
    ensures
        exists|b: int| 0 <= b <= s.len() && trim_end_spec(s) == s.subrange(0, b),
    decreases s.len(),
{
    if s.len() > 0 && is_ws(s.last()) {
        lemma_trim_end_part(s.drop_last());
        let b = choose|b: int| 0 <= b <= s.drop_last().len() && trim_end_spec(s.drop_last()) == s.drop_last().subrange(0, b);
        assert(s.drop_last().subrange(0, b) =~= s.subrange(0, b));
    } else {
        assert(s.subrange(0, s.len() as int) =~= s);
    }
}

/// The first index of `v` at or after `from` that is not white space, or
/// the length.
fn skip_ws_forward(v: &Vec<char>, from: usize) -> (r: usize)
    requires
        from <= v@.len(),
    ensures
        from <= r <= v@.len(),
        trim_start_spec(v@.skip(from as int)) == v@.skip(r as int),
    decreases v@.len() - from,
{
    if from < v.len() && is_whitespace(v[from]) {
        assert(v@.skip(from as int).drop_first() =~= v@.skip(from as int + 1));
        skip_ws_forward(v, from + 1)
    } else {
        from
    }
}

/// `str::trim`: `s` without leading and trailing white space.
pub fn trim(s: &str) -> (r: String)
    ensures
        r@ == trim_spec(s@),
{
    let v = chars_of(s);
    let t = trim_chars(&v);
    string_of(t.as_slice())
}

/// `v` without leading and trailing white space.
pub fn trim_chars(v: &Vec<char>) -> (r: Vec<char>)
    ensures
        r@ == trim_spec(v@),
{
    let a = skip_ws_forward(v, 0);
    assert(v@.skip(0) =~= v@);
    assert(v@.skip(a as int) =~= v@.subrange(a as int, v@.len() as int));
    let mut b = v.len();
    while b > a && is_whitespace(v[b - 1])
        invariant
            a <= b <= v@.len(),
            trim_spec(v@) == trim_end_spec(v@.subrange(a as int, b as int)),
        decreases b,
    {
        assert(v@.subrange(a as int, b as int).drop_last() =~= v@.subrange(a as int, b - 1));
        b -= 1;
    }
    chars_between(v, a, b)
}

/// `s` with `p` stripped from its front as many times as it is there
/// (`str::trim_start_matches` with a non-empty string pattern).
pub open spec fn trim_start_matches_spec(s: Seq<char>, p: Seq<char>) -> Seq<char>
    decreases s.len(),
{
    if p.len() > 0 && seq_starts_with(s, p) {
        trim_start_matches_spec(s.skip(p.len() as int), p)
    } else {
        s
    }
}

/// `s` with `p` stripped from its end as many times as it is there
/// (`str::trim_end_matches` with a non-empty string pattern).
pub open spec fn trim_end_matches_spec(s: Seq<char>, p: Seq<char>) -> Seq<char>
    decreases s.len(),
{
    if p.len() > 0 && seq_ends_with(s, p) {
        trim_end_matches_spec(s.take(s.len() - p.len()), p)
    } else {
        s
    }
}

/// `v` with `p` stripped from its front as many times as it is there.
pub fn trim_start_matches_chars(v: &Vec<char>, p: &Vec<char>) -> (r: Vec<char>)
    requires
        p@.len() > 0,
    ensures
        r@ == trim_start_matches_spec(v@, p@),
{
    let mut a: usize = 0;
    let n = v.len();
    assert(v@.skip(0) =~= v@);
    while occurs_at_exec(v, p, a)
        invariant
            a <= v@.len(),
            n == v@.len(),
            p@.len() > 0,
            trim_start_matches_spec(v@, p@) == trim_start_matches_spec(v@.skip(a as int), p@),
        decreases v@.len() - a,
    {
        assert(v@.skip(a as int).subrange(0, p@.len() as int) =~= v@.subrange(a as int, a + p@.len()));
        assert(v@.skip(a as int).skip(p@.len() as int) =~= v@.skip(a + p@.len()));
        a = a + p.len();
    }
    assert(!seq_starts_with(v@.skip(a as int), p@)) by {
        if seq_starts_with(v@.skip(a as int), p@) {
            assert(v@.skip(a as int).subrange(0, p@.len() as int) =~= v@.subrange(a as int, a + p@.len()));
        }
    }
    assert(v@.skip(a as int) =~= v@.subrange(a as int, v@.len() as int));
    chars_between(v, a, v.len())
}

/// `v` with `p` stripped from its end as many times as it is there.
pub fn trim_end_matches_chars(v: &Vec<char>, p: &Vec<char>) -> (r: Vec<char>)
    requires
        p@.len() > 0,
    ensures
        r@ == trim_end_matches_spec(v@, p@),
{
    let mut b: usize = v.len();
    assert(v@.take(b as int) =~= v@);
    while b >= p.len() && occurs_at_exec(v, p, b - p.len())
        invariant
            b <= v@.len(),
            p@.len() > 0,
            trim_end_matches_spec(v@, p@) == trim_end_matches_spec(v@.take(b as int), p@),
        decreases b,
    {
        assert(v@.take(b as int).subrange(b - p@.len(), b as int) =~= v@.subrange(b - p@.len(), b as int));
        assert(v@.take(b as int).take(b - p@.len()) =~= v@.take(b - p@.len()));
        b = b - p.len();
    }
    assert(!seq_ends_with(v@.take(b as int), p@)) by {
        if seq_ends_with(v@.take(b as int), p@) {
            assert(v@.take(b as int).subrange(b - p@.len(), b as int) =~= v@.subrange(b - p@.len(), b as int));
        }
    }
    assert(v@.take(b as int) =~= v@.subrange(0, b as int));
    chars_between(v, 0, b)
}

/// The characters of `v` from `a` up to (not including) `b`.
pub fn chars_between(v: &Vec<char>, a: usize, b: usize) -> (r: Vec<char>)
    requires
        a <= b <= v@.len(),
    ensures
        r@ == v@.subrange(a as int, b as int),
{
    let mut r: Vec<char> = Vec::new();
    let mut i = a;
    while i < b
        invariant
            a <= i <= b <= v@.len(),
            r@ == v@.subrange(a as int, i as int),
        decreases b - i,
    {
        r.push(v[i]);
        assert(v@.subrange(a as int, i + 1) =~= v@.subrange(a as int, i as int).push(v@[i as int]));
        i += 1;
    }
    r
}

/// `p` occurs in `s` at index `i`.
pub open spec fn occurs_at(s: Seq<char>, p: Seq<char>, i: int) -> bool {
    0 <= i && i + p.len() <= s.len() && s.subrange(i, i + p.len()) == p
}

/// The first index at which `p` occurs in `s`, if it does.
#[verifier::opaque]
pub open spec fn first_occurrence(s: Seq<char>, p: Seq<char>) -> Option<int> {
    if exists|i: int| #[trigger] occurs_at(s, p, i) {
        Some(choose|i: int| #[trigger] occurs_at(s, p, i) && forall|j: int| 0 <= j < i ==> !occurs_at(s, p, j))
    } else {
        None
    }
}

/// Whether `p` occurs in `v` at index `i`.
pub fn occurs_at_exec(v: &Vec<char>, p: &Vec<char>, i: usize) -> (r: bool)
    ensures
        r == occurs_at(v@, p@, i as int),
{
    if i > v.len() || p.len() > v.len() - i {
        return false;
    }
    let mut k: usize = 0;
    while k < p.len()
        invariant
            i + p@.len() <= v@.len(),
            v@.len() <= usize::MAX,
            k <= p@.len(),
            forall|j: int| 0 <= j < k ==> v@[i + j] == p@[j],
        decreases p@.len() - k,
    {
        if v[i + k] != p[k] {
            assert(v@.subrange(i as int, i + p@.len())[k as int] != p@[k as int]);
            return false;
        }
        k += 1;
    }
    assert(v@.subrange(i as int, i + p@.len()) =~= p@);
    true
}

/// The first index at or after `from` at which `p` occurs in `v`.
pub fn find_from(v: &Vec<char>, p: &Vec<char>, from: usize) -> (r: Option<usize>)
    requires
        from <= v@.len(),
    ensures
        r matches Some(i) ==> (from <= i && occurs_at(v@, p@, i as int)
            && forall|j: int| from <= j < i ==> !occurs_at(v@, p@, j)),
        r is None ==> (forall|j: int| from <= j ==> !occurs_at(v@, p@, j)),
{
    let mut i = from;
    while i <= v.len()
        invariant
            from <= i,
            i <= v@.len() + 1,
            forall|j: int| from <= j < i ==> !occurs_at(v@, p@, j),
        decreases v@.len() + 1 - i,
    {
        if occurs_at_exec(v, p, i) {
            return Some(i);
        }
        if i == v.len() {
            assert forall|j: int| from <= j implies !occurs_at(v@, p@, j) by {
                if j > i {
                    assert(!(j + p@.len() <= v@.len()));
                }
            }
            return None;
        }
        i += 1;
    }
    None
}

/// `first_occurrence` is the least index at which the pattern occurs.
pub proof fn lemma_first_occurrence(s: Seq<char>, p: Seq<char>, i: int)
    requires
        occurs_at(s, p, i),
        forall|j: int| 0 <= j < i ==> !occurs_at(s, p, j),
    ensures
        first_occurrence(s, p) == Some(i),
{
    reveal(first_occurrence);
    assert(occurs_at(s, p, i));
    let c = choose|c: int| #[trigger] occurs_at(s, p, c) && forall|j: int| 0 <= j < c ==> !occurs_at(s, p, j);
    if c < i {
        assert(!occurs_at(s, p, c));
    } else if c > i {
        assert(!occurs_at(s, p, i));
    }
}

/// Where `p` occurs at `i`, it occurs first somewhere at or before `i`.
proof fn lemma_least_occurrence(s: Seq<char>, p: Seq<char>, i: int)
    requires
        occurs_at(s, p, i),
    ensures
        exists|m: int| #[trigger] occurs_at(s, p, m) && forall|j: int| 0 <= j < m ==> !occurs_at(s, p, j),
    decreases i,
{
    if exists|j: int| 0 <= j < i && #[trigger] occurs_at(s, p, j) {
        let j = choose|j: int| 0 <= j < i && #[trigger] occurs_at(s, p, j);
        lemma_least_occurrence(s, p, j);
    } else {
        assert(occurs_at(s, p, i) && forall|j: int| 0 <= j < i ==> !occurs_at(s, p, j));
    }
}

/// What `first_occurrence` gives: the least index at which `p` occurs, or
/// `None` where it occurs nowhere.
pub proof fn lemma_first_occurrence_spec(s: Seq<char>, p: Seq<char>)
    ensures
        match first_occurrence(s, p) {
            Some(i) => occurs_at(s, p, i) && forall|j: int| 0 <= j < i ==> !occurs_at(s, p, j),
            None => forall|j: int| 0 <= j ==> !occurs_at(s, p, j),
        },
{
    reveal(first_occurrence);
    if exists|i: int| #[trigger] occurs_at(s, p, i) {
        let i = choose|i: int| #[trigger] occurs_at(s, p, i);
        lemma_least_occurrence(s, p, i);
    }
}

/// Where `p` occurs nowhere, there is no first occurrence.
pub proof fn lemma_no_occurrence(s: Seq<char>, p: Seq<char>)
    requires
        forall|j: int| 0 <= j ==> !occurs_at(s, p, j),
    ensures
        first_occurrence(s, p) is None,
{
    reveal(first_occurrence);
}

/// Every character of `d` is an ASCII digit.
pub open spec fn all_digits(d: Seq<char>) -> bool {
    forall|i: int| 0 <= i < d.len() ==> '0' <= #[trigger] d[i] <= '9'
}

/// The value of the decimal digits `d`.
pub open spec fn decimal_value(d: Seq<char>) -> nat
    decreases d.len(),
{
    if d.len() == 0 {
        0
    } else {
        decimal_value(d.drop_last()) * 10 + ((d.last() as u32) - ('0' as u32)) as nat
    }
}

/// What the standard library's unsigned integer parsing gives for `s`
/// with the largest value `max`: an optional `+`, then at least one digit
/// and nothing else, of a value up to `max`.
pub open spec fn parse_uint_spec(s: Seq<char>, max: nat) -> Option<nat> {
    let d = if s.len() > 0 && s[0] == '+' { s.drop_first() } else { s };
    if d.len() > 0 && all_digits(d) && decimal_value(d) <= max {
        Some(decimal_value(d))
    } else {
        None
    }
}

/// A prefix of digits has no larger value than the whole.
proof fn lemma_decimal_prefix(d: Seq<char>, k: int)
    requires
        all_digits(d),
        0 <= k <= d.len(),
    ensures
        decimal_value(d.take(k)) <= decimal_value(d),
    decreases d.len(),
{
    if k < d.len() {
        let p = d.drop_last();
        assert(all_digits(p)) by {
            assert forall|i: int| 0 <= i < p.len() implies '0' <= #[trigger] p[i] <= '9' by {
                assert(p[i] == d[i]);
            }
        }
        lemma_decimal_prefix(p, k);
        assert(p.take(k) =~= d.take(k));
        assert('0' <= d.last() <= '9');
    } else {
        assert(d.take(k) =~= d);
    }
}

/// Parses an unsigned decimal of value up to `max` as the standard library
/// does for unsigned integers.
pub fn parse_uint(s: &str, max: u64) -> (r: Option<u64>)
    ensures
        r matches Some(v) ==> parse_uint_spec(s@, max as nat) == Some(v as nat),
        r is None ==> parse_uint_spec(s@, max as nat) is None,
{
    let v = chars_of(s);
    let start: usize = if v.len() > 0 && v[0] == '+' { 1 } else { 0 };
    let ghost d = if v@.len() > 0 && v@[0] == '+' { v@.drop_first() } else { v@ };
    assert(d =~= v@.subrange(start as int, v@.len() as int));
    if start >= v.len() {
        return None;
    }
    let mut acc: u128 = 0;
    let mut i = start;
    while i < v.len()
        invariant
            start <= i <= v@.len(),
            v@ == s@,
            d == (if s@.len() > 0 && s@[0] == '+' { s@.drop_first() } else { s@ }),
            d == v@.subrange(start as int, v@.len() as int),
            acc as nat == decimal_value(v@.subrange(start as int, i as int)),
            acc <= max as u128,
            all_digits(v@.subrange(start as int, i as int)),
        decreases v@.len() - i,
    {
        let c = v[i];
        let ghost prefix = v@.subrange(start as int, i + 1);
        assert(prefix.drop_last() =~= v@.subrange(start as int, i as int));
        assert(prefix =~= d.take(i - start + 1));
        if c < '0' || c > '9' {
            assert(!all_digits(d)) by {
                assert(d[i - start] == c);
            }
            return None;
        }
        let digit = (c as u32 - '0' as u32) as u128;
        let next = acc * 10 + digit;
        assert(next as nat == decimal_value(prefix));
        assert(all_digits(prefix));
        if next > max as u128 {
            proof {
                if all_digits(d) {
                    lemma_decimal_prefix(d, i - start + 1);
                }
            }
            return None;
        }
        acc = next;
        i += 1;
    }
    Some(acc as u64)
}

/// The decimal digits of `n`, without leading zeros ("0" for zero).
pub open spec fn decimal_digits(n: nat) -> Seq<char>
    decreases n,
{
    if n < 10 {
        seq![(('0' as u32) + n) as char]
    } else {
        decimal_digits(n / 10).push((('0' as u32) + (n % 10)) as char)
    }
}

/// The digit character of `d` (below ten).
fn digit_char(d: u64) -> (r: char)
    requires
        d < 10,
    ensures
        r == (('0' as u32) + d) as char,
{
    let u = ('0' as u32) + (d as u32);
    (u as u8) as char
}

/// The decimal form of `n`, as `to_string` writes an unsigned integer.
pub fn decimal_string(n: u64) -> (r: String)
    ensures
        r@ == decimal_digits(n as nat),
{
    let mut rev: Vec<char> = Vec::new();
    let mut m = n;
    while m >= 10
        invariant
            decimal_digits(n as nat) == decimal_digits(m as nat) + rev@.reverse(),
        decreases m,
    {
        let d = m % 10;
        let c = digit_char(d);
        let ghost before = rev@;
        rev.push(c);
        assert(decimal_digits(m as nat) == decimal_digits((m / 10) as nat).push(c));
        assert(rev@.reverse() =~= seq![c] + before.reverse());
        assert(decimal_digits(m as nat) + before.reverse() =~= decimal_digits((m / 10) as nat) + rev@.reverse());
        m = m / 10;
    }
    let first = digit_char(m);
    let mut out: Vec<char> = Vec::new();
    out.push(first);
    let mut k = rev.len();
    while k > 0
        invariant
            k <= rev@.len(),
            out@ == seq![first] + rev@.subrange(k as int, rev@.len() as int).reverse(),
        decreases k,
    {
        let ghost before = out@;
        out.push(rev[k - 1]);
        assert(rev@.subrange(k - 1, rev@.len() as int).reverse() =~= rev@.subrange(k as int, rev@.len() as int).reverse().push(rev@[k - 1]));
        k -= 1;
    }
    assert(rev@.subrange(0, rev@.len() as int) =~= rev@);
    assert(decimal_digits(m as nat) =~= seq![first]);
    string_of(out.as_slice())
}

/// The strings of `v` joined, with `sep` between each two.
pub open spec fn joined_with(v: Seq<Seq<char>>, sep: Seq<char>) -> Seq<char>
    decreases v.len(),
{
    if v.len() == 0 {
        Seq::empty()
    } else if v.len() == 1 {
        v[0]
    } else {
        joined_with(v.drop_last(), sep) + sep + v.last()
    }
}

/// `[String]::join`: the strings of `v` with `sep` between each two.
pub fn join_with(v: &Vec<String>, sep: &str) -> (r: String)
    ensures
        r@ == joined_with(v@.map_values(|s: String| s@), sep@),
{
    let mut out = String::new();
    let mut i: usize = 0;
    while i < v.len()
        invariant
            i <= v@.len(),
            out@ == joined_with(v@.take(i as int).map_values(|s: String| s@), sep@),
        decreases v@.len() - i,
    {
        assert(v@.take(i as int + 1).map_values(|s: String| s@).drop_last() =~= v@.take(i as int).map_values(|s: String| s@));
        if i > 0 {
            out.append(sep);
        } else {
            assert(v@.take(1).map_values(|s: String| s@) =~= seq![v@[0]@]);
        }
        out.append(v[i].as_str());
        i += 1;
    }
    assert(v@.take(v@.len() as int) =~= v@);
    out
}

} // verus!
