//! Remote agents: the search request sent to an agent, the messages it
//! streams back as newline-delimited JSON, the assembly of that byte stream
//! into lines, and the client's settings.
use vstd::prelude::*;
use crate::text::string_views;
use crate::search::SearchResult;
use crate::text::{trim, trim_spec, parse_uint, parse_uint_spec};
use crate::repository_error::labelled;
use crate::io_error::io_error_text;

verus! {

/// What an agent searches.
#[derive(Debug, Clone)]
pub enum SearchScope {
    /// A directory, recursively or not.
    Directory { path: String, recursive: bool },
    /// A list of files.
    Files { paths: Vec<String> },
    /// A gzip-compressed tar archive.
    TarGz { path: String },
    /// Whatever the agent decides.
    All,
}

/// The options of an agent search.
#[derive(Debug, Clone)]
pub struct SearchOptions {
    /// A path filter.
    pub path_filter: Option<String>,
    pub scope: SearchScope,
    /// Time-out in seconds.
    pub timeout_secs: Option<u64>,
    /// Largest number of results.
    pub max_results: Option<usize>,
}

impl Default for SearchOptions {
    fn default() -> (r: SearchOptions)
        ensures
            r.path_filter is None,
            r.scope is All,
            r.timeout_secs == Some(300u64),
            r.max_results is None,
    {
        SearchOptions { path_filter: None, scope: SearchScope::All, timeout_secs: Some(300), max_results: None }
    }
}

/// How far a search task has come.
#[derive(Debug, Clone)]
pub struct SearchProgress {
    pub task_id: String,
    pub processed_files: usize,
    pub matched_files: usize,
    pub total_files: Option<usize>,
    pub status: SearchStatus,
}

/// The state of a search task.
#[derive(Debug, Clone)]
pub enum SearchStatus {
    Pending,
    Running,
    Completed,
    Failed(String),
    Cancelled,
}

/// What a search service can do.
#[derive(Debug, Clone)]
pub struct ServiceCapabilities {
    pub supports_progress: bool,
    pub supports_cancellation: bool,
    pub supports_streaming: bool,
    /// Largest number of searches at once.
    pub max_concurrent_searches: usize,
}

impl Default for ServiceCapabilities {
    fn default() -> (r: ServiceCapabilities)
        ensures
            !r.supports_progress && !r.supports_cancellation && !r.supports_streaming,
            r.max_concurrent_searches == 0,
    {
        ServiceCapabilities {
            supports_progress: false,
            supports_cancellation: false,
            supports_streaming: false,
            max_concurrent_searches: 0,
        }
    }
}

/// What an agent client can do: progress, cancellation and streaming, with
/// up to ten searches at once.
pub fn agent_capabilities() -> (r: ServiceCapabilities)
    ensures
        r.supports_progress && r.supports_cancellation && r.supports_streaming,
        r.max_concurrent_searches == 10,
{
    ServiceCapabilities {
        supports_progress: true,
        supports_cancellation: true,
        supports_streaming: true,
        max_concurrent_searches: 10,
    }
}

/// Errors of agent searches.
#[derive(Debug)]
pub enum StorageError {
    Io(std::io::Error),
    PermissionDenied(String),
    NotFound(String),
    ConnectionError(String),
    AgentUnavailable(String),
    Timeout,
    Cancelled,
    QueryParseError(String),
    Other(String),
}

impl StorageError {
    /// The text of the error. That of an I/O error ends with the I/O
    /// error's text, which comes from the system.
    pub fn message(&self) -> (r: String)
        ensures
            self matches StorageError::PermissionDenied(s) ==> r@ == "权限被拒绝: "@ + s@,
            self matches StorageError::NotFound(s) ==> r@ == "文件不存在: "@ + s@,
            self matches StorageError::ConnectionError(s) ==> r@ == "连接错误: "@ + s@,
            self matches StorageError::AgentUnavailable(s) ==> r@ == "Agent 不可用: "@ + s@,
            self is Timeout ==> r@ == "超时"@,
            self is Cancelled ==> r@ == "任务被取消"@,
            self matches StorageError::QueryParseError(s) ==> r@ == "查询解析错误: "@ + s@,
            self matches StorageError::Other(s) ==> r@ == "其他错误: "@ + s@,
    {
        match self {
            StorageError::Io(e) => {
                let text = io_error_text(e);
                labelled("IO错误: ", text.as_str())
            },
            StorageError::PermissionDenied(s) => labelled("权限被拒绝: ", s.as_str()),
            StorageError::NotFound(s) => labelled("文件不存在: ", s.as_str()),
            StorageError::ConnectionError(s) => labelled("连接错误: ", s.as_str()),
            StorageError::AgentUnavailable(s) => labelled("Agent 不可用: ", s.as_str()),
            StorageError::Timeout => String::from_str("超时"),
            StorageError::Cancelled => String::from_str("任务被取消"),
            StorageError::QueryParseError(s) => labelled("查询解析错误: ", s.as_str()),
            StorageError::Other(s) => labelled("其他错误: ", s.as_str()),
        }
    }
}

/// The search request sent to an agent.
#[derive(Debug, Clone)]
pub struct AgentSearchRequest {
    pub task_id: String,
    pub query: String,
    pub context_lines: usize,
    pub path_filter: Option<String>,
    pub scope: SearchScope,
}

/// The request of a search with these options, under task id `task_id`.
pub fn build_search_request(task_id: String, query: &str, context_lines: usize, options: SearchOptions) -> (r: AgentSearchRequest)
    ensures
        r.task_id == task_id,
        r.query@ == query@,
        r.context_lines == context_lines,
        r.path_filter == options.path_filter,
        r.scope == options.scope,
{
    AgentSearchRequest {
        task_id,
        query: String::from_str(query),
        context_lines,
        path_filter: options.path_filter,
        scope: options.scope,
    }
}

/// A message of an agent's result stream.
#[derive(Debug)]
pub enum AgentMessage {
    /// A matching file.
    Result(SearchResult),
    /// Progress of the task.
    Progress(SearchProgress),
    /// A failure.
    Error(String),
    /// The end of the results.
    Complete,
}

/// What the client's result stream yields for a message: a result, or an
/// error that carries the agent's text after "Agent 错误: "; progress and
/// completion yield nothing.
pub fn message_outcome(msg: AgentMessage) -> (r: Option<Result<SearchResult, StorageError>>)
    ensures
        match msg {
            AgentMessage::Result(res) => r == Some(Ok::<SearchResult, StorageError>(res)),
            AgentMessage::Error(e) => r matches Some(Err(StorageError::Other(m))) && m@ == "Agent 错误: "@ + e@,
            _ => r is None,
        },
{
    match msg {
        AgentMessage::Result(res) => Some(Ok(res)),
        AgentMessage::Error(e) => Some(Err(StorageError::Other(labelled("Agent 错误: ", e.as_str())))),
        AgentMessage::Progress(_) => None,
        AgentMessage::Complete => None,
    }
}

/// The index of the first byte `x` of `b`.
pub open spec fn first_byte(b: Seq<u8>, x: u8) -> Option<int>
    decreases b.len(),
{
    if b.len() == 0 {
        None
    } else if b[0] == x {
        Some(0)
    } else {
        match first_byte(b.drop_first(), x) {
            Some(i) => Some(i + 1),
            None => None,
        }
    }
}

/// `String::from_utf8`: the text of `b` where it is valid UTF-8.
#[verifier::external_body]
pub(crate) fn utf8_string(b: Vec<u8>) -> (r: Option<String>)
    ensures
        r is Some <==> vstd::utf8::valid_utf8(b@),
        r matches Some(s) ==> s@ == vstd::utf8::decode_utf8(b@),
{
    String::from_utf8(b).ok()
}

/// What `String::from_utf8_lossy` gives for `b`: its text, with each
/// invalid sequence replaced by U+FFFD.
pub uninterp spec fn utf8_lossy(b: Seq<u8>) -> Seq<char>;

/// `String::from_utf8_lossy`: the text of `b`, with each invalid sequence
/// replaced by U+FFFD; valid UTF-8 is decoded as it is.
#[verifier::external_body]
pub(crate) fn utf8_lossy_string(b: &[u8]) -> (r: String)
    ensures
        r@ == utf8_lossy(b@),
        vstd::utf8::valid_utf8(b@) ==> r@ == vstd::utf8::decode_utf8(b@),
{
    String::from_utf8_lossy(b).into_owned()
}

/// The line of `raw` (the bytes before a newline) that is kept: a
/// trailing carriage return is dropped; an empty line, one that is not
/// valid UTF-8, or one of white space only is not kept.
pub open spec fn kept_line(raw: Seq<u8>) -> Option<Seq<char>> {
    let l = if raw.len() > 0 && raw.last() == 13u8 { raw.drop_last() } else { raw };
    if l.len() > 0 && vstd::utf8::valid_utf8(l) && trim_spec(vstd::utf8::decode_utf8(l)).len() > 0 {
        Some(vstd::utf8::decode_utf8(l))
    } else {
        None
    }
}

/// The complete lines of `b` that are kept (in order) and the bytes after
/// the last newline.
pub open spec fn scan_lines(b: Seq<u8>) -> (Seq<Seq<char>>, Seq<u8>)
    decreases b.len(),
{
    match first_byte(b, 10u8) {
        None => (Seq::empty(), b),
        Some(p) => if 0 <= p < b.len() {
            let (rest_lines, rest) = scan_lines(b.skip(p + 1));
            match kept_line(b.take(p)) {
                Some(l) => (seq![l] + rest_lines, rest),
                None => (rest_lines, rest),
            }
        } else {
            (Seq::empty(), b)
        },
    }
}

/// What a chunk yields: the complete lines kept, if any. Bytes that wait
/// for their newline are yielded only at the end of the stream (see
/// `NdjsonLines::finish`).
pub open spec fn chunk_output(buffered: Seq<u8>) -> Option<Seq<Seq<char>>> {
    let (lines, rest) = scan_lines(buffered);
    if lines.len() > 0 {
        Some(lines)
    } else {
        None
    }
}

/// What the end of the stream yields of the bytes still waiting for their
/// newline: their lossy text, where it is not blank.
pub open spec fn final_output(pending: Seq<u8>) -> Option<Seq<char>> {
    if pending.len() > 0 && trim_spec(utf8_lossy(pending)).len() > 0 {
        Some(utf8_lossy(pending))
    } else {
        None
    }
}

/// The lines yielded by feeding `chunks` in order to an assembler holding
/// `pending`, and the bytes it holds afterwards.
pub open spec fn feed_all(pending: Seq<u8>, chunks: Seq<Seq<u8>>) -> (Seq<Seq<char>>, Seq<u8>)
    decreases chunks.len(),
{
    if chunks.len() == 0 {
        (Seq::empty(), pending)
    } else {
        let (l, r) = scan_lines(pending + chunks[0]);
        let (l2, r2) = feed_all(r, chunks.drop_first());
        (l + l2, r2)
    }
}

/// Where `first_byte` finds `x`, it is the first `x` of `b`.
proof fn lemma_first_byte_spec(b: Seq<u8>, x: u8)
    ensures
        match first_byte(b, x) {
            Some(p) => 0 <= p < b.len() && b[p] == x && forall|j: int| 0 <= j < p ==> b[j] != x,
            None => forall|j: int| 0 <= j < b.len() ==> b[j] != x,
        },
    decreases b.len(),
{
    if b.len() > 0 {
        lemma_first_byte_spec(b.drop_first(), x);
        assert forall|j: int| 0 < j < b.len() implies #[trigger] b[j] == b.drop_first()[j - 1] by {}
    }
}

/// Bytes appended after a newline do not move the first newline.
proof fn lemma_first_byte_append(a: Seq<u8>, b: Seq<u8>, x: u8)
    requires
        first_byte(a, x) is Some,
    ensures
        first_byte(a + b, x) == first_byte(a, x),
{
    lemma_first_byte_spec(a, x);
    let p = first_byte(a, x).unwrap();
    assert forall|j: int| 0 <= j < p implies (a + b)[j] != x by {
        assert((a + b)[j] == a[j]);
    }
    assert((a + b)[p] == a[p]);
    lemma_first_byte_at_any(a + b, x, p);
}

/// The first `x` is at `i` when `i` holds one and no byte before it does.
proof fn lemma_first_byte_at_any(b: Seq<u8>, x: u8, i: int)
    requires
        0 <= i < b.len(),
        b[i] == x,
        forall|j: int| 0 <= j < i ==> b[j] != x,
    ensures
        first_byte(b, x) == Some(i),
    decreases i,
{
    if i > 0 {
        assert forall|j: int| 0 <= j < i - 1 implies b.drop_first()[j] != x by {
            assert(b.drop_first()[j] == b[j + 1]);
        }
        lemma_first_byte_at_any(b.drop_first(), x, i - 1);
    }
}

/// Scanning `a + b` gives the lines of `a`, then the lines of what `a`
/// leaves pending followed by `b`.
proof fn lemma_scan_split(a: Seq<u8>, b: Seq<u8>)
    ensures
        scan_lines(a + b) == (scan_lines(a).0 + scan_lines(scan_lines(a).1 + b).0, scan_lines(scan_lines(a).1 + b).1),
    decreases a.len(),
{
    lemma_first_byte_spec(a, 10u8);
    match first_byte(a, 10u8) {
        None => {
            assert(scan_lines(a) == (Seq::<Seq<char>>::empty(), a));
            assert(Seq::<Seq<char>>::empty() + scan_lines(a + b).0 =~= scan_lines(a + b).0);
        },
        Some(p) => {
            lemma_first_byte_append(a, b, 10u8);
            let tail = a.skip(p + 1);
            assert((a + b).take(p) =~= a.take(p));
            assert((a + b).skip(p + 1) =~= tail + b);
            lemma_scan_split(tail, b);
            let s = scan_lines(scan_lines(tail).1 + b);
            match kept_line(a.take(p)) {
                Some(l) => {
                    assert(seq![l] + (scan_lines(tail).0 + s.0) =~= (seq![l] + scan_lines(tail).0) + s.0);
                },
                None => {},
            }
        },
    }
}

/// What scanning leaves pending holds no newline.
proof fn lemma_scan_rest(b: Seq<u8>)
    ensures
        first_byte(scan_lines(b).1, 10u8) is None,
    decreases b.len(),
{
    lemma_first_byte_spec(b, 10u8);
    match first_byte(b, 10u8) {
        None => {},
        Some(p) => {
            lemma_scan_rest(b.skip(p + 1));
        },
    }
}

/// Feeding chunks one by one yields the lines of all their bytes together,
/// and leaves pending what follows the last newline.
proof fn lemma_feed_all(pending: Seq<u8>, chunks: Seq<Seq<u8>>)
    requires
        first_byte(pending, 10u8) is None,
    ensures
        feed_all(pending, chunks) == scan_lines(pending + chunks.flatten()),
    decreases chunks.len(),
{
    if chunks.len() == 0 {
        assert(pending + chunks.flatten() =~= pending);
    } else {
        let c = chunks[0];
        let r = scan_lines(pending + c).1;
        lemma_scan_rest(pending + c);
        lemma_feed_all(r, chunks.drop_first());
        assert(chunks.flatten() == c + chunks.drop_first().flatten());
        assert(pending + chunks.flatten() =~= (pending + c) + chunks.drop_first().flatten());
        lemma_scan_split(pending + c, chunks.drop_first().flatten());
        let whole = scan_lines(pending + chunks.flatten());
        let f = feed_all(pending, chunks);
        assert(f.0 == scan_lines(pending + c).0 + feed_all(r, chunks.drop_first()).0);
        assert(f.1 == feed_all(r, chunks.drop_first()).1);
        assert(f.0 == whole.0);
        assert(f.1 == whole.1);
    }
}

/// The lines of a stream do not depend on how it is cut into chunks: two
/// cuts of the same bytes yield the same lines and leave the same bytes
/// pending (so the end of the stream yields the same text too), and both
/// yield the lines of the whole stream at once.
pub proof fn lemma_chunking_independent(c1: Seq<Seq<u8>>, c2: Seq<Seq<u8>>)
    requires
        c1.flatten() == c2.flatten(),
    ensures
        feed_all(Seq::empty(), c1) == feed_all(Seq::empty(), c2),
        feed_all(Seq::empty(), c1) == scan_lines(c1.flatten()),
{
    assert(first_byte(Seq::<u8>::empty(), 10u8) is None);
    lemma_feed_all(Seq::empty(), c1);
    lemma_feed_all(Seq::empty(), c2);
    assert(Seq::<u8>::empty() + c1.flatten() =~= c1.flatten());
    assert(Seq::<u8>::empty() + c2.flatten() =~= c2.flatten());
}

/// The bytes of `v` from `a` up to (not including) `b`.
fn bytes_between(v: &Vec<u8>, a: usize, b: usize) -> (r: Vec<u8>)
    requires
        a <= b <= v@.len(),
    ensures
        r@ == v@.subrange(a as int, b as int),
{
    let mut r: Vec<u8> = Vec::new();
    let mut i = a;
    while i < b
        invariant
            a <= i <= b <= v@.len(),
            r@ == v@.subrange(a as int, i as int),
        decreases b - i,
    {
        r.push(v[i]);
        assert(v@.subrange(a as int, i + 1) =~= v@.subrange(a as int, i as int).push(v@[i as int]));
        i += 1;
    }
    r
}

/// The index of the first newline of `v`.
fn find_newline(v: &Vec<u8>) -> (r: Option<usize>)
    ensures
        match r {
            Some(p) => first_byte(v@, 10u8) == Some(p as int) && p < v@.len(),
            None => first_byte(v@, 10u8) is None,
        },
{
    let mut i: usize = 0;
    while i < v.len()
        invariant
            i <= v@.len(),
            forall|j: int| 0 <= j < i ==> v@[j] != 10u8,
        decreases v@.len() - i,
    {
        if v[i] == 10u8 {
            proof {
                lemma_first_byte_at(v@, i as int);
            }
            return Some(i);
        }
        i += 1;
    }
    proof {
        lemma_first_byte_none(v@);
    }
    None
}

/// The first newline is at `i` when `i` holds one and no byte before it does.
proof fn lemma_first_byte_at(b: Seq<u8>, i: int)
    requires
        0 <= i < b.len(),
        b[i] == 10u8,
        forall|j: int| 0 <= j < i ==> b[j] != 10u8,
    ensures
        first_byte(b, 10u8) == Some(i),
    decreases i,
{
    if i > 0 {
        assert forall|j: int| 0 <= j < i - 1 implies b.drop_first()[j] != 10u8 by {
            assert(b.drop_first()[j] == b[j + 1]);
        }
        lemma_first_byte_at(b.drop_first(), i - 1);
    }
}

/// There is no first newline where no byte is one.
proof fn lemma_first_byte_none(b: Seq<u8>)
    requires
        forall|j: int| 0 <= j < b.len() ==> b[j] != 10u8,
    ensures
        first_byte(b, 10u8) is None,
    decreases b.len(),
{
    if b.len() > 0 {
        assert forall|j: int| 0 <= j < b.len() - 1 implies b.drop_first()[j] != 10u8 by {
            assert(b.drop_first()[j] == b[j + 1]);
        }
        lemma_first_byte_none(b.drop_first());
    }
}

/// Assembles an agent's byte stream into lines of newline-delimited JSON,
/// keeping the bytes of an incomplete last line until more arrive.
pub struct NdjsonLines {
    buf: Vec<u8>,
}

impl View for NdjsonLines {
    type V = Seq<u8>;

    closed spec fn view(&self) -> Seq<u8> {
        self.buf@
    }
}

impl NdjsonLines {
    /// An assembler with nothing buffered.
    pub fn new() -> (r: NdjsonLines)
        ensures
            r@ == Seq::<u8>::empty(),
    {
        NdjsonLines { buf: Vec::new() }
    }

    /// Takes the next chunk of the stream: yields the complete lines kept of
    /// the buffered bytes followed by the chunk (see `chunk_output`), and
    /// keeps the bytes after their last newline.
    pub fn feed(&mut self, chunk: &[u8]) -> (r: Option<Vec<String>>)
        ensures
            final(self)@ == scan_lines(old(self)@ + chunk@).1,
            match r {
                Some(v) => chunk_output(old(self)@ + chunk@) == Some(string_views(v@)),
                None => chunk_output(old(self)@ + chunk@) is None,
            },
    {
        let ghost all = self.buf@ + chunk@;
        let mut k: usize = 0;
        while k < chunk.len()
            invariant
                k <= chunk@.len(),
                all == old(self)@ + chunk@,
                self.buf@ == old(self)@ + chunk@.take(k as int),
            decreases chunk@.len() - k,
        {
            self.buf.push(chunk[k]);
            assert(chunk@.take(k as int + 1) =~= chunk@.take(k as int).push(chunk@[k as int]));
            k += 1;
        }
        assert(chunk@.take(chunk@.len() as int) =~= chunk@);
        let mut lines: Vec<String> = Vec::new();
        loop
            invariant
                all == old(self)@ + chunk@,
                scan_lines(all) == (string_views(lines@) + scan_lines(self.buf@).0, scan_lines(self.buf@).1),
            ensures
                scan_lines(all) == (string_views(lines@), self.buf@),
            decreases self.buf@.len(),
        {
            match find_newline(&self.buf) {
                None => {
                    assert(string_views(lines@) + Seq::<Seq<char>>::empty() =~= string_views(lines@));
                    break;
                },
                Some(pos) => {
                    let n = self.buf.len();
                    let raw = bytes_between(&self.buf, 0, pos);
                    let rest = bytes_between(&self.buf, pos + 1, n);
                    let ghost before = self.buf@;
                    assert(raw@ =~= before.take(pos as int));
                    assert(rest@ =~= before.skip(pos + 1));
                    let kept = keep_line(raw);
                    self.buf = rest;
                    match kept {
                        Some(s) => {
                            let ghost prev = lines@;
                            lines.push(s);
                            assert(string_views(lines@) =~= string_views(prev).push(s@));
                            assert(string_views(prev) + scan_lines(before).0 =~= string_views(lines@) + scan_lines(self.buf@).0);
                        },
                        None => {},
                    }
                },
            }
        }
        if lines.len() > 0 {
            Some(lines)
        } else {
            None
        }
    }

    /// Ends the stream: the lossy text of the bytes still waiting for their
    /// newline, where it is not blank.
    pub fn finish(self) -> (r: Option<String>)
        ensures
            match r {
                Some(s) => final_output(self@) == Some(s@),
                None => final_output(self@) is None,
            },
    {
        if self.buf.len() > 0 {
            let text = utf8_lossy_string(self.buf.as_slice());
            let t = trim(text.as_str());
            if t.as_str().is_empty() {
                return None;
            }
            return Some(text);
        }
        None
    }
}

/// The line kept of the bytes before a newline (see `kept_line`).
fn keep_line(raw: Vec<u8>) -> (r: Option<String>)
    ensures
        match r {
            Some(s) => kept_line(raw@) == Some(s@),
            None => kept_line(raw@) is None,
        },
{
    let n = raw.len();
    let l = if n > 0 && raw[n - 1] == 13u8 { bytes_between(&raw, 0, n - 1) } else { raw };
    assert(n > 0 && raw@[n - 1] == 13u8 ==> l@ =~= raw@.drop_last());
    if l.len() == 0 {
        return None;
    }
    match utf8_string(l) {
        Some(s) => {
            let t = trim(s.as_str());
            if t.as_str().is_empty() {
                None
            } else {
                Some(s)
            }
        },
        None => None,
    }
}

/// A time-out in seconds kept between 5 and 300.
pub open spec fn clamp_timeout(t: u64) -> u64 {
    if t < 5 { 5 } else if t > 300 { 300 } else { t }
}

/// The I/O time-out of agent requests in seconds: the tuned value if there
/// is one, else the environment's value where it is a number, else 60;
/// kept between 5 and 300.
pub fn io_timeout_secs(tuned: Option<u64>, env_value: Option<&str>) -> (r: u64)
    ensures
        r == clamp_timeout(match tuned {
            Some(t) => t,
            None => match env_value {
                Some(s) => match parse_uint_spec(s@, u64::MAX as nat) {
                    Some(n) => n as u64,
                    None => 60,
                },
                None => 60,
            },
        }),
{
    let t = match tuned {
        Some(t) => t,
        None => match env_value {
            Some(s) => match parse_uint(s, u64::MAX) {
                Some(n) => n,
                None => 60,
            },
            None => 60,
        },
    };
    if t < 5 { 5 } else if t > 300 { 300 } else { t }
}

/// A retry count kept between 1 and 20.
pub open spec fn clamp_retries(n: u64) -> u32 {
    if n < 1 { 1 } else if n > 20 { 20 } else { n as u32 }
}

/// The number of attempts of an agent request: the tuned value if there is
/// one, else the environment's value where it is a `u32`, else 5; kept
/// between 1 and 20.
pub fn max_attempts(tuned: Option<u32>, env_value: Option<&str>) -> (r: u32)
    ensures
        r == clamp_retries(match tuned {
            Some(t) => t as u64,
            None => match env_value {
                Some(s) => match parse_uint_spec(s@, u32::MAX as nat) {
                    Some(n) => n as u64,
                    None => 5,
                },
                None => 5,
            },
        }),
{
    let t: u64 = match tuned {
        Some(t) => t as u64,
        None => match env_value {
            Some(s) => match parse_uint(s, u32::MAX as u64) {
                Some(n) => n,
                None => 5,
            },
            None => 5,
        },
    };
    if t < 1 { 1 } else if t > 20 { 20 } else { t as u32 }
}

/// What to do after a failed connection attempt.
#[derive(Debug, Clone, Copy, PartialEq, Eq, Structural)]
pub enum RetryStep {
    /// Give up: the attempts are used.
    GiveUp,
    /// Wait this many milliseconds, then try again.
    WaitMs(u64),
}

/// `2` to the power `n`.
pub open spec fn pow2(n: nat) -> nat
    decreases n,
{
    if n == 0 { 1 } else { 2 * pow2((n - 1) as nat) }
}

/// After failed attempt number `attempt` (from 1) of `max`: give up at the
/// last one, else wait 100 ms times 2 to the power `attempt - 1`.
pub fn retry_step(attempt: u32, max: u32) -> (r: RetryStep)
    requires
        1 <= attempt,
        max <= 20,
    ensures
        attempt >= max ==> r == RetryStep::GiveUp,
        attempt < max ==> r == RetryStep::WaitMs((100 * pow2((attempt - 1) as nat)) as u64),
{
    if attempt >= max {
        return RetryStep::GiveUp;
    }
    let mut ms: u64 = 100;
    let mut i: u32 = 1;
    while i < attempt
        invariant
            1 <= i <= attempt,
            attempt < max <= 20,
            ms == 100 * pow2((i - 1) as nat),
            ms <= 100 * 1048576,
        decreases attempt - i,
    {
        proof {
            lemma_pow2_bound((i - 1) as nat);
        }
        ms = ms * 2;
        i += 1;
        proof {
            lemma_pow2_bound((i - 1) as nat);
        }
    }
    RetryStep::WaitMs(ms)
}

/// `pow2(n)` stays below `2^20` for `n` below 20.
proof fn lemma_pow2_bound(n: nat)
    requires
        n < 20,
    ensures
        pow2(n) <= 524288,
    decreases 19 - n,
{
    if n < 19 {
        lemma_pow2_bound(n + 1);
        assert(pow2(n + 1) == 2 * pow2(n));
    } else {
        reveal_with_fuel(pow2, 20);
    }
}

/// The wait after failed attempt number `attempt`, in milliseconds.
pub open spec fn retry_wait(attempt: nat) -> nat {
    100 * pow2((attempt - 1) as nat)
}

/// Each further failed attempt doubles the wait before the next one, and
/// attempt number `max` ends the retries.
pub proof fn lemma_retry_backoff(attempt: nat, max: nat)
    requires
        1 <= attempt,
        attempt + 1 < max <= 20,
    ensures
        retry_wait(attempt + 1) == 2 * retry_wait(attempt),
        retry_wait(attempt) < retry_wait(attempt + 1),
{
    assert(pow2(attempt) == 2 * pow2((attempt - 1) as nat));
    assert(pow2((attempt - 1) as nat) >= 1) by {
        lemma_pow2_positive((attempt - 1) as nat);
    }
}

/// `pow2(n)` is at least 1.
proof fn lemma_pow2_positive(n: nat)
    ensures
        pow2(n) >= 1,
    decreases n,
{
    if n > 0 {
        lemma_pow2_positive((n - 1) as nat);
    }
}

} // verus!
