//! Rendering of a file's search result as numbered chunks of lines.
use vstd::prelude::*;
use crate::query::KeywordHighlight;

verus! {

/// One line with its 1-based number.
#[derive(Debug)]
pub struct JsonLine<'a> {
    pub no: usize,
    pub text: &'a str,
}

/// A run of consecutive lines with its 1-based, inclusive range.
#[derive(Debug)]
pub struct JsonChunk<'a> {
    pub range: (usize, usize),
    pub lines: Vec<JsonLine<'a>>,
}

/// The rendered result of one file.
#[derive(Debug)]
pub struct SearchJsonResult<'a> {
    pub path: &'a str,
    /// The highlight keywords, with their kind.
    pub keywords: &'a [KeywordHighlight],
    pub chunks: Vec<JsonChunk<'a>>,
    /// Name of the file's encoding (such as "UTF-8" or "GBK").
    pub encoding: &'a Option<String>,
}

/// The ranges can be rendered over `n` lines: each non-empty range ends
/// inside the file, and the 1-based numbers fit in a `usize`.
pub open spec fn renderable(ranges: Seq<(usize, usize)>, n: int) -> bool {
    forall|k: int| 0 <= k < ranges.len() ==> {
        let (s, e) = #[trigger] ranges[k];
        &&& s < usize::MAX
        &&& e < usize::MAX
        &&& s <= e ==> e < n
    }
}

/// Chunk `c` renders the 0-based range `(s, e)` of `lines`: its range is
/// `(s + 1, e + 1)` and it holds lines `s ..= e` numbered from `s + 1`.
pub open spec fn chunk_of<'a>(c: JsonChunk<'a>, s: usize, e: usize, lines: Seq<String>) -> bool {
    &&& c.range == ((s + 1) as usize, (e + 1) as usize)
    &&& c.lines@.len() == (if s <= e { e - s + 1 } else { 0 })
    &&& forall|j: int| 0 <= j < c.lines@.len() ==> {
        &&& (#[trigger] c.lines@[j]).no == s + j + 1
        &&& c.lines@[j].text@ == lines[s + j]@
    }
}

/// Renders the merged ranges (0-based, inclusive) of a file's lines as
/// chunks numbered from 1, with the file's path, keywords and encoding.
pub fn render_json_chunks<'a>(
    path: &'a str,
    ranges: Vec<(usize, usize)>,
    all_lines: &'a [String],
    highlights_with_type: &'a [KeywordHighlight],
    encoding: &'a Option<String>,
) -> (r: SearchJsonResult<'a>)
    requires
        renderable(ranges@, all_lines@.len() as int),
    ensures
        r.path == path,
        r.keywords == highlights_with_type,
        r.encoding == encoding,
        r.chunks@.len() == ranges@.len(),
        forall|k: int| 0 <= k < ranges@.len() ==> chunk_of(#[trigger] r.chunks@[k], ranges@[k].0, ranges@[k].1, all_lines@),
{
    let mut chunks: Vec<JsonChunk<'a>> = Vec::new();
    let mut k: usize = 0;
    while k < ranges.len()
        invariant
            k <= ranges@.len(),
            renderable(ranges@, all_lines@.len() as int),
            chunks@.len() == k,
            forall|m: int| 0 <= m < k ==> chunk_of(#[trigger] chunks@[m], ranges@[m].0, ranges@[m].1, all_lines@),
        decreases ranges@.len() - k,
    {
        let (s, e) = ranges[k];
        assert(ranges@[k as int] == (s, e));
        let mut lines_vec: Vec<JsonLine<'a>> = Vec::new();
        if s <= e {
            let mut i = s;
            while i <= e
                invariant
                    s <= i <= e + 1,
                    e < all_lines@.len(),
                    e < usize::MAX,
                    lines_vec@.len() == i - s,
                    forall|j: int| 0 <= j < lines_vec@.len() ==> {
                        &&& (#[trigger] lines_vec@[j]).no == s + j + 1
                        &&& lines_vec@[j].text@ == all_lines@[s + j]@
                    },
                decreases e + 1 - i,
            {
                lines_vec.push(JsonLine { no: i + 1, text: all_lines[i].as_str() });
                i += 1;
            }
        }
        chunks.push(JsonChunk { range: (s + 1, e + 1), lines: lines_vec });
        k += 1;
    }
    SearchJsonResult { path, keywords: highlights_with_type, chunks, encoding }
}

} // verus!
