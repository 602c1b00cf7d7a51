//! Decisions of the processing of a stream of entries: when the loop
//! stops, waits or takes the next entry; which entries are read into
//! memory before they are searched, and when that reading stops; and the
//! event that the search of each entry sends.
use vstd::prelude::*;
use crate::search::{EntrySourceType, SearchEvent, SearchResult};
use crate::repository_error::labelled;

verus! {

/// The largest entry read whole into memory before it is searched
/// (120 MiB); larger ones are searched as a stream, one at a time.
pub const MAX_PRELOAD_SIZE: usize = 120 * 1024 * 1024;

/// Whether an entry shares its reader with the entries after it (it is
/// compressed, or lies in a tar archive), so that it must be read before
/// the next one is taken.
pub fn shares_reader(is_compressed: bool, source: EntrySourceType) -> (r: bool)
    ensures
        r == (is_compressed || source == EntrySourceType::Tar || source == EntrySourceType::TarGz),
{
    is_compressed || matches!(source, EntrySourceType::Tar) || matches!(source, EntrySourceType::TarGz)
}

/// How the reading of an entry into memory goes on after a read.
#[derive(Debug, Clone, Copy, PartialEq, Eq, Structural)]
pub enum PreloadStep {
    /// Read on.
    More,
    /// The entry ended: all of it is in memory.
    Complete,
    /// The entry passed the limit: the part read is in memory, the rest is
    /// still to be read from the stream.
    Partial,
}

/// The step after a read of `read` bytes, with `held` bytes in memory
/// before it: a read of nothing ends the entry; otherwise the reading
/// stops once more than `max` bytes are held.
pub fn preload_step(held: usize, read: usize, max: usize) -> (r: PreloadStep)
    requires
        held + read <= usize::MAX,
    ensures
        read == 0 ==> r == PreloadStep::Complete,
        read > 0 && held + read > max ==> r == PreloadStep::Partial,
        read > 0 && held + read <= max ==> r == PreloadStep::More,
{
    if read == 0 {
        PreloadStep::Complete
    } else if held + read > max {
        PreloadStep::Partial
    } else {
        PreloadStep::More
    }
}

/// What the entry loop does next.
#[derive(Debug, Clone, Copy, PartialEq, Eq, Structural)]
pub enum LoopStep {
    /// Stop taking entries (the searches under way are still awaited).
    Stop,
    /// Wait for one search under way to end, then ask again.
    AwaitOne,
    /// Take the next entry of the stream.
    NextEntry,
}

/// The loop's next step: it stops once the receiver of the events has
/// gone or the search was cancelled; otherwise, with `in_flight` searches
/// under way and at most `max_concurrency` allowed, it waits for one to
/// end when the limit is reached, and takes the next entry when not.
pub fn loop_step(channel_closed: bool, cancelled: bool, in_flight: usize, max_concurrency: usize) -> (r: LoopStep)
    ensures
        channel_closed || cancelled ==> r == LoopStep::Stop,
        !channel_closed && !cancelled && in_flight >= max_concurrency ==> r == LoopStep::AwaitOne,
        !channel_closed && !cancelled && in_flight < max_concurrency ==> r == LoopStep::NextEntry,
{
    if channel_closed || cancelled {
        LoopStep::Stop
    } else if in_flight >= max_concurrency {
        LoopStep::AwaitOne
    } else {
        LoopStep::NextEntry
    }
}

/// How an entry that passed the path filters is searched.
#[derive(Debug, Clone, Copy, PartialEq, Eq, Structural)]
pub enum EntryRoute {
    /// Not searched: its path is filtered out.
    Skip,
    /// Read into memory first (it shares the stream's reader), then
    /// searched.
    Preload,
    /// Searched on its own reader, alongside the others.
    Concurrent,
}

/// The route of an entry: skipped where its path is not allowed; read
/// into memory first where it shares the reader (see `shares_reader`);
/// searched on its own reader otherwise.
pub fn entry_route(path_allowed: bool, is_compressed: bool, source: EntrySourceType) -> (r: EntryRoute)
    ensures
        !path_allowed ==> r == EntryRoute::Skip,
        path_allowed && (is_compressed || source == EntrySourceType::Tar || source == EntrySourceType::TarGz)
            ==> r == EntryRoute::Preload,
        path_allowed && !(is_compressed || source == EntrySourceType::Tar || source == EntrySourceType::TarGz)
            ==> r == EntryRoute::Concurrent,
{
    if !path_allowed {
        EntryRoute::Skip
    } else if shares_reader(is_compressed, source) {
        EntryRoute::Preload
    } else {
        EntryRoute::Concurrent
    }
}

/// Which way an entry was searched, as its errors name it.
#[derive(Debug, Clone, Copy, PartialEq, Eq, Structural)]
pub enum EntryRun {
    /// Read whole into memory, then searched alongside the others.
    Preloaded,
    /// Too large for memory: searched as a stream, alone.
    Large,
    /// Searched on its own reader.
    Direct,
    /// Reading it into memory failed.
    PreloadFailed,
}

/// The source that an error event of a run names.
pub open spec fn run_source_spec(run: EntryRun) -> Seq<char> {
    match run {
        EntryRun::Preloaded => "条目流#preload"@,
        EntryRun::Large => "条目流#large"@,
        EntryRun::Direct => "条目流#2"@,
        EntryRun::PreloadFailed => "条目流#preload-error"@,
    }
}

/// The label before an error's text in the event of a run.
pub open spec fn run_label_spec(run: EntryRun) -> Seq<char> {
    match run {
        EntryRun::PreloadFailed => "预读失败: "@,
        _ => "内容处理失败: "@,
    }
}

/// How the search of one entry ended.
#[derive(Debug)]
pub enum EntryOutcome {
    /// The entry matched.
    Found(SearchResult),
    /// The entry was searched and did not match (or is no text).
    NoHit,
    /// The search (or the reading into memory) failed with this error text.
    Failed(String),
    /// The search took longer than allowed.
    TimedOut,
}

/// The event that the end of an entry's search sends: a match, with the
/// archive the entry lies in; a failure, as a recoverable error naming
/// the run and the error's text; nothing where the entry did not match or
/// its search timed out.
pub fn outcome_event(run: EntryRun, outcome: EntryOutcome, container_path: Option<String>) -> (r: Option<SearchEvent>)
    ensures
        match outcome {
            EntryOutcome::Found(res) => r == Some(SearchEvent::Success(SearchResult { archive_path: container_path, ..res })),
            EntryOutcome::Failed(e) => r matches Some(SearchEvent::Error { source, message, recoverable })
                && source@ == run_source_spec(run) && message@ == run_label_spec(run) + e@ && recoverable,
            _ => r is None,
        },
{
    match outcome {
        EntryOutcome::Found(res) => Some(SearchEvent::Success(res.with_archive_path(container_path))),
        EntryOutcome::Failed(e) => {
            let (source, label) = match run {
                EntryRun::Preloaded => ("条目流#preload", "内容处理失败: "),
                EntryRun::Large => ("条目流#large", "内容处理失败: "),
                EntryRun::Direct => ("条目流#2", "内容处理失败: "),
                EntryRun::PreloadFailed => ("条目流#preload-error", "预读失败: "),
            };
            Some(SearchEvent::Error { source: String::from_str(source), message: labelled(label, e.as_str()), recoverable: true })
        },
        EntryOutcome::NoHit => None,
        EntryOutcome::TimedOut => None,
    }
}

} // verus!
