//! Viewing a file of a search session: which lines of it are shown, how
//! they are numbered, and which entry of an archive is the one asked for.
use vstd::prelude::*;
use crate::text::string_views;
use crate::cache::{lines_read};
use crate::text::{chars_of, trim_start_matches_chars, trim_start_matches_spec};
use crate::llm::same_chars;

verus! {

/// The first line shown when none is asked for.
pub const DEFAULT_VIEW_START: usize = 1;

/// The last line shown when none is asked for.
pub const DEFAULT_VIEW_END: usize = 1000;

/// The lines `start ..= end` (1-based, by default `1 ..= 1000`) of a file's
/// lines, the range placed inside the file as a cached read places it.
pub fn view_lines(all: &Vec<String>, start: Option<usize>, end: Option<usize>) -> (r: Vec<String>)
    ensures
        string_views(r@) == lines_read(
            string_views(all@),
            match start { Some(s) => s as int, None => DEFAULT_VIEW_START as int },
            match end { Some(e) => e as int, None => DEFAULT_VIEW_END as int },
        ).1,
{
    let start = match start { Some(s) => s, None => DEFAULT_VIEW_START };
    let end = match end { Some(e) => e, None => DEFAULT_VIEW_END };
    let total = all.len();
    let s0 = if start < 1 { 1 } else { start };
    let s = if s0 > total { if total > 1 { total } else { 1 } } else { s0 };
    let e0 = if end < s { s } else { end };
    let e = if e0 > total { total } else { e0 };
    let mut out: Vec<String> = Vec::new();
    if total > 0 && s <= total {
        let mut i = s - 1;
        while i < e
            invariant
                1 <= s,
                s - 1 <= i <= e <= total == all@.len(),
                string_views(out@) == string_views(all@).subrange(s - 1, i as int),
            decreases e - i,
        {
            let item = all[i].clone();
            let ghost before = out@;
            out.push(item);
            assert(string_views(out@) =~= string_views(before).push(all@[i as int]@));
            assert(string_views(out@) =~= string_views(all@).subrange(s - 1, i + 1));
            i += 1;
        }
    } else {
        assert(string_views(out@) =~= Seq::<Seq<char>>::empty());
    }
    out
}

/// The numbers of the first and last line shown: the asked start (at least
/// 1), and the line after it by the slice's length less one, at most the
/// file's last line (line 1 for an empty file).
pub open spec fn view_bounds_spec(start: Option<usize>, slice_len: usize, total: usize) -> (int, int) {
    let s = match start { Some(v) => if v < 1 { 1int } else { v as int }, None => 1int };
    let last = if total < 1 { 1int } else { total as int };
    let e0 = s + if slice_len >= 1 { slice_len - 1 } else { 0int };
    (s, if e0 < last { e0 } else { last })
}

/// The numbers of the first and last line of a view.
pub fn view_bounds(start: Option<usize>, slice_len: usize, total: usize) -> (r: (usize, usize))
    requires
        view_bounds_spec(start, slice_len, total).0 + slice_len <= usize::MAX + 1,
    ensures
        r.0 as int == view_bounds_spec(start, slice_len, total).0,
        r.1 as int == view_bounds_spec(start, slice_len, total).1,
{
    let s = match start { Some(v) => if v < 1 { 1 } else { v }, None => 1 };
    let last = if total < 1 { 1 } else { total };
    let e0 = s + if slice_len >= 1 { slice_len - 1 } else { 0 };
    (s, if e0 < last { e0 } else { last })
}

/// The lines of a slice with their numbers, the first numbered `start`.
pub fn numbered_lines(start: usize, slice: &Vec<String>) -> (r: Vec<(usize, String)>)
    requires
        start + slice@.len() <= usize::MAX + 1,
    ensures
        r@.len() == slice@.len(),
        forall|i: int| 0 <= i < r@.len() ==> #[trigger] r@[i].0 == start + i && r@[i].1@ == slice@[i]@,
{
    let mut out: Vec<(usize, String)> = Vec::new();
    let mut i: usize = 0;
    while i < slice.len()
        invariant
            i <= slice@.len(),
            start + slice@.len() <= usize::MAX + 1,
            out@.len() == i,
            forall|j: int| 0 <= j < i ==> #[trigger] out@[j].0 == start + j && out@[j].1@ == slice@[j]@,
        decreases slice@.len() - i,
    {
        out.push((start + i, slice[i].clone()));
        i += 1;
    }
    out
}

/// The form in which entry paths are compared: without leading slashes,
/// then without leading `./`.
pub open spec fn entry_key(p: Seq<char>) -> Seq<char> {
    trim_start_matches_spec(trim_start_matches_spec(p, seq!['/']), seq!['.', '/'])
}

/// The comparable form of an entry path.
fn entry_key_of(p: &str) -> (r: Vec<char>)
    ensures
        r@ == entry_key(p@),
{
    let v = chars_of(p);
    let mut slash: Vec<char> = Vec::new();
    slash.push('/');
    let mut dot_slash: Vec<char> = Vec::new();
    dot_slash.push('.');
    dot_slash.push('/');
    assert(slash@ =~= seq!['/']);
    assert(dot_slash@ =~= seq!['.', '/']);
    let a = trim_start_matches_chars(&v, &slash);
    trim_start_matches_chars(&a, &dot_slash)
}

/// Whether an entry of an archive is the one asked for: their paths agree
/// once leading slashes and then leading `./` are removed.
pub fn same_entry_path(entry_path: &str, target: &str) -> (r: bool)
    ensures
        r == (entry_key(entry_path@) == entry_key(target@)),
{
    let a = entry_key_of(entry_path);
    let b = entry_key_of(target);
    same_chars(&a, &b)
}

} // verus!
