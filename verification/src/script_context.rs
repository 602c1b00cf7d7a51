//! The context handed to a planning script: the variables written before
//! the script's text (the query, today, the date range and its days, the
//! storage profiles and the agents), and the repair of the texts a script
//! returns for its sources.
use vstd::prelude::*;
use crate::text::{chars_of, string_of, trim_chars, trim_spec, trim_start_matches_chars,
    trim_end_matches_chars, trim_start_matches_spec, trim_end_matches_spec};
use crate::llm::{ascii_lower, ascii_lower_char, to_ascii_lower};
use crate::planner::{DateRange, civil_date, civil_of_day, iso_date, iso_date_text, padded, write_padded,
    date_directives_spec, parse_date_directives_checked, today_in_shanghai};

verus! {

/// `c` as it is written inside a single-quoted literal of the script.
pub open spec fn esc_char(c: char) -> Seq<char> {
    if c == '\\' {
        seq!['\\', '\\']
    } else if c == '\'' {
        seq!['\\', '\'']
    } else {
        seq![c]
    }
}

/// `s` with each backslash and single quote escaped by a backslash.
pub open spec fn esc_spec(s: Seq<char>) -> Seq<char>
    decreases s.len(),
{
    if s.len() == 0 {
        Seq::empty()
    } else {
        esc_spec(s.drop_last()) + esc_char(s.last())
    }
}

/// Escapes backslashes and single quotes, for text put inside a
/// single-quoted literal of the script.
pub fn esc_single(s: &str) -> (r: String)
    ensures
        r@ == esc_spec(s@),
{
    let v = chars_of(s);
    let mut out: Vec<char> = Vec::new();
    let mut i: usize = 0;
    while i < v.len()
        invariant
            i <= v@.len(),
            v@ == s@,
            out@ == esc_spec(v@.take(i as int)),
        decreases v@.len() - i,
    {
        let c = v[i];
        if c == '\\' || c == '\'' {
            out.push('\\');
        }
        out.push(c);
        assert(v@.take(i + 1).drop_last() =~= v@.take(i as int));
        assert(out@ =~= esc_spec(v@.take(i as int)) + esc_char(c));
        i += 1;
    }
    assert(v@.take(v@.len() as int) =~= v@);
    string_of(out.as_slice())
}

/// `v` with its ASCII upper-case letters in lower case.
fn ascii_lowercase_of(v: &Vec<char>) -> (r: Vec<char>)
    ensures
        r@ == ascii_lower(v@),
{
    let mut out: Vec<char> = Vec::new();
    let mut i: usize = 0;
    while i < v.len()
        invariant
            i <= v@.len(),
            out@ == ascii_lower(v@.take(i as int)),
        decreases v@.len() - i,
    {
        out.push(to_ascii_lower(v[i]));
        assert(ascii_lower(v@.take(i + 1)) =~= ascii_lower(v@.take(i as int)).push(ascii_lower_char(v@[i as int])));
        i += 1;
    }
    assert(v@.take(v@.len() as int) =~= v@);
    out
}

/// The text between surrounding double quotes: where `t` (already
/// trimmed) starts and ends with a double quote, the text without all its
/// leading and trailing double quotes.
pub open spec fn quotes_stripped(t: Seq<char>) -> Option<Seq<char>> {
    if t.len() >= 2 && t[0] == '"' && t.last() == '"' {
        Some(trim_end_matches_spec(trim_start_matches_spec(t, seq!['"']), seq!['"']))
    } else {
        None
    }
}

/// The trimmed text without its surrounding double quotes, where it has
/// them.
fn strip_quotes(t: &Vec<char>) -> (r: Option<Vec<char>>)
    ensures
        match r {
            Some(u) => quotes_stripped(t@) == Some(u@),
            None => quotes_stripped(t@) is None,
        },
{
    let n = t.len();
    if n >= 2 && t[0] == '"' && t[n - 1] == '"' {
        let mut q: Vec<char> = Vec::new();
        q.push('"');
        assert(q@ =~= seq!['"']);
        let a = trim_start_matches_chars(t, &q);
        Some(trim_end_matches_chars(&a, &q))
    } else {
        None
    }
}

/// The type tag of a source as a script returns it, repaired: trimmed,
/// surrounding double quotes removed, in ASCII lower case.
pub open spec fn normalized_tag(t: Seq<char>) -> Seq<char> {
    let trimmed = trim_spec(t);
    match quotes_stripped(trimmed) {
        Some(u) => ascii_lower(u),
        None => ascii_lower(trimmed),
    }
}

/// Repairs the type tag of a source returned by a script.
pub fn normalize_source_tag(t: &str) -> (r: String)
    ensures
        r@ == normalized_tag(t@),
{
    let trimmed = trim_chars(&chars_of(t));
    let base = match strip_quotes(&trimmed) {
        Some(u) => u,
        None => trimmed,
    };
    string_of(ascii_lowercase_of(&base).as_slice())
}

/// A text field of a source returned by a script, repaired: where the
/// trimmed text is in double quotes, the text inside them; otherwise the
/// field is left as it is (`None`).
pub open spec fn unquoted_field(s: Seq<char>) -> Option<Seq<char>> {
    quotes_stripped(trim_spec(s))
}

/// The repaired text of a source's field, where it needs repair.
pub fn normalize_source_string(s: &str) -> (r: Option<String>)
    ensures
        match r {
            Some(u) => unquoted_field(s@) == Some(u@),
            None => unquoted_field(s@) is None,
        },
{
    let trimmed = trim_chars(&chars_of(s));
    match strip_quotes(&trimmed) {
        Some(u) => Some(string_of(u.as_slice())),
        None => None,
    }
}

/// One day of the date range as the script sees it.
#[derive(Debug, Clone)]
pub struct DateEntry {
    /// `YYYY-MM-DD`.
    pub iso: String,
    /// `YYYYMMDD`.
    pub yyyymmdd: String,
    /// `YYYYMMDD` of the next day.
    pub next_yyyymmdd: String,
}

/// A storage profile as the script sees it (without secrets).
#[derive(Debug, Clone)]
pub struct ProfileContext {
    pub profile_name: String,
    pub endpoint: String,
    pub bucket: String,
}

/// An agent as the script sees it: its id and tags.
#[derive(Debug, Clone)]
pub struct AgentContext {
    pub id: String,
    pub tags: Vec<(String, String)>,
}

/// The eight digits `YYYYMMDD` of a civil date.
pub open spec fn compact_date(c: (int, int, int)) -> Seq<char> {
    padded(c.0, 4) + padded(c.1, 2) + padded(c.2, 2)
}

/// The days of a range, each with its ISO text, its digits and those of
/// the next day; `None` where chrono cannot hold a day or the next one.
pub open spec fn date_entries_spec(start: int, end: int) -> Option<Seq<(Seq<char>, Seq<char>, Seq<char>)>>
    decreases end - start + 1,
{
    if end < start {
        Some(Seq::empty())
    } else {
        match date_entries_spec(start, end - 1) {
            Some(prev) => match (iso_date(end), civil_date(end), civil_date(end + 1)) {
                (Some(i), Some(c), Some(n)) => Some(prev.push((i, compact_date(c), compact_date(n)))),
                _ => None,
            },
            None => None,
        }
    }
}

/// The views of date entries.
pub open spec fn entry_views(v: Seq<DateEntry>) -> Seq<(Seq<char>, Seq<char>, Seq<char>)> {
    v.map_values(|e: DateEntry| (e.iso@, e.yyyymmdd@, e.next_yyyymmdd@))
}

/// The eight digits of a civil date.
fn compact_text(c: (i32, u32, u32)) -> (r: String)
    ensures
        r@ == compact_date((c.0 as int, c.1 as int, c.2 as int)),
{
    let mut s = write_padded(c.0 as i64, 4);
    s.append(write_padded(c.1 as i64, 2).as_str());
    s.append(write_padded(c.2 as i64, 2).as_str());
    s
}

/// The days of a range for the script.
pub fn date_entries(range: DateRange) -> (r: Option<Vec<DateEntry>>)
    requires
        range.end < i32::MAX,
    ensures
        match r {
            Some(v) => date_entries_spec(range.start as int, range.end as int) == Some(entry_views(v@)),
            None => date_entries_spec(range.start as int, range.end as int) is None,
        },
{
    let mut out: Vec<DateEntry> = Vec::new();
    if range.end < range.start {
        assert(entry_views(out@) =~= Seq::empty());
        return Some(out);
    }
    let mut d = range.start;
    assert(date_entries_spec(range.start as int, range.start - 1) == Some(Seq::<(Seq<char>, Seq<char>, Seq<char>)>::empty()));
    assert(entry_views(out@) =~= Seq::empty());
    while d <= range.end
        invariant
            range.start <= d <= range.end + 1,
            range.end < i32::MAX,
            date_entries_spec(range.start as int, d - 1) == Some(entry_views(out@)),
        decreases range.end + 1 - d,
    {
        let iso = iso_date_text(d);
        let c = civil_of_day(d);
        let n = civil_of_day(d + 1);
        match (iso, c, n) {
            (Some(i), Some(c), Some(n)) => {
                let e = DateEntry { iso: i, yyyymmdd: compact_text(c), next_yyyymmdd: compact_text(n) };
                let ghost before = out@;
                out.push(e);
                assert(entry_views(out@) =~= entry_views(before).push((e.iso@, e.yyyymmdd@, e.next_yyyymmdd@)));
            },
            _ => {
                proof {
                    lemma_entries_none_after(range.start as int, d as int, range.end as int);
                }
                return None;
            },
        }
        d = d + 1;
    }
    Some(out)
}

/// Once a day of the range has no entry, the entries of any longer range
/// from the same start are missing too.
proof fn lemma_entries_none_after(start: int, d: int, end: int)
    requires
        start <= d <= end,
        date_entries_spec(start, d) is None,
    ensures
        date_entries_spec(start, end) is None,
    decreases end - d,
{
    if d < end {
        lemma_entries_none_after(start, d + 1, end);
    }
}

/// The script line of one day.
pub open spec fn date_line(e: (Seq<char>, Seq<char>, Seq<char>)) -> Seq<char> {
    "  {'iso': '"@ + e.0 + "', 'yyyymmdd': '"@ + e.1 + "', 'next_yyyymmdd': '"@ + e.2 + "'},\n"@
}

/// The script lines of the days.
pub open spec fn date_lines(v: Seq<(Seq<char>, Seq<char>, Seq<char>)>) -> Seq<char>
    decreases v.len(),
{
    if v.len() == 0 { Seq::empty() } else { date_lines(v.drop_last()) + date_line(v.last()) }
}

/// The script line of one storage profile.
pub open spec fn profile_line(p: ProfileContext) -> Seq<char> {
    "  {'profile_name': '"@ + esc_spec(p.profile_name@) + "', 'endpoint': '"@ + esc_spec(p.endpoint@)
        + "', 'bucket': '"@ + esc_spec(p.bucket@) + "'},\n"@
}

/// The script lines of the storage profiles.
pub open spec fn profile_lines(v: Seq<ProfileContext>) -> Seq<char>
    decreases v.len(),
{
    if v.len() == 0 { Seq::empty() } else { profile_lines(v.drop_last()) + profile_line(v.last()) }
}

/// The pairs of a tag map, each as `'key':'value'`, separated by commas.
pub open spec fn tag_pairs(v: Seq<(String, String)>) -> Seq<char>
    decreases v.len(),
{
    if v.len() == 0 {
        Seq::empty()
    } else {
        let pair = "'"@ + esc_spec(v.last().0@) + "':'"@ + esc_spec(v.last().1@) + "'"@;
        if v.len() == 1 { pair } else { tag_pairs(v.drop_last()) + ","@ + pair }
    }
}

/// The script line of one agent.
pub open spec fn agent_line(a: AgentContext) -> Seq<char> {
    "  {'id': '"@ + esc_spec(a.id@) + "', 'tags': "@ + "{"@ + tag_pairs(a.tags@) + "}"@ + "},\n"@
}

/// The script lines of the agents.
pub open spec fn agent_lines(v: Seq<AgentContext>) -> Seq<char>
    decreases v.len(),
{
    if v.len() == 0 { Seq::empty() } else { agent_lines(v.drop_last()) + agent_line(v.last()) }
}

/// The variables written before a planning script: `CLEANED_QUERY`,
/// `TODAY`, `DATE_RANGE`, `DATES`, `S3_PROFILES` and `AGENTS`.
pub open spec fn prelude_spec(
    cleaned: Seq<char>,
    today: Seq<char>,
    range_start: Seq<char>,
    range_end: Seq<char>,
    dates: Seq<(Seq<char>, Seq<char>, Seq<char>)>,
    profiles: Seq<ProfileContext>,
    agents: Seq<AgentContext>,
) -> Seq<char> {
    "# 由后端注入的上下文变量，请勿在脚本内重命名\n"@
        + "CLEANED_QUERY = '"@ + esc_spec(cleaned) + "'\n"@
        + "TODAY = '"@ + today + "'\n"@
        + "DATE_RANGE = {'start': '"@ + range_start + "', 'end': '"@ + range_end + "'}\n"@
        + "DATES = [\n"@ + date_lines(dates) + "]\n"@
        + "S3_PROFILES = [\n"@ + profile_lines(profiles) + "]\n"@
        + "AGENTS = [\n"@ + agent_lines(agents) + "]\n"@
}

/// Appends `b` to `a`.
fn push_text(a: &mut String, b: &str)
    ensures
        final(a)@ == old(a)@ + b@,
{
    a.append(b);
}

/// The text of an agent's tags.
fn tags_text(tags: &Vec<(String, String)>) -> (r: String)
    ensures
        r@ == tag_pairs(tags@),
{
    let mut out = String::new();
    let mut i: usize = 0;
    while i < tags.len()
        invariant
            i <= tags@.len(),
            out@ == tag_pairs(tags@.take(i as int)),
        decreases tags@.len() - i,
    {
        let ghost before = out@;
        if i > 0 {
            push_text(&mut out, ",");
        }
        push_text(&mut out, "'");
        push_text(&mut out, esc_single(tags[i].0.as_str()).as_str());
        push_text(&mut out, "':'");
        push_text(&mut out, esc_single(tags[i].1.as_str()).as_str());
        push_text(&mut out, "'");
        proof {
            let t = tags@.take(i + 1);
            assert(t.drop_last() =~= tags@.take(i as int));
            assert(t.last() == tags@[i as int]);
            let pair = "'"@ + esc_spec(tags@[i as int].0@) + "':'"@ + esc_spec(tags@[i as int].1@) + "'"@;
            if i > 0 {
                assert(out@ =~= before + ","@ + pair);
            } else {
                assert(before =~= Seq::<char>::empty());
                assert(out@ =~= pair);
            }
        }
        i += 1;
    }
    assert(tags@.take(tags@.len() as int) =~= tags@);
    out
}

/// Writes the variables that precede a planning script.
pub fn script_prelude(
    cleaned: &str,
    today: &str,
    range_start: &str,
    range_end: &str,
    dates: &Vec<DateEntry>,
    profiles: &Vec<ProfileContext>,
    agents: &Vec<AgentContext>,
) -> (r: String)
    ensures
        r@ == prelude_spec(cleaned@, today@, range_start@, range_end@, entry_views(dates@), profiles@, agents@),
{
    let mut out = String::new();
    push_text(&mut out, "# 由后端注入的上下文变量，请勿在脚本内重命名\n");
    push_text(&mut out, "CLEANED_QUERY = '");
    push_text(&mut out, esc_single(cleaned).as_str());
    push_text(&mut out, "'\n");
    push_text(&mut out, "TODAY = '");
    push_text(&mut out, today);
    push_text(&mut out, "'\n");
    push_text(&mut out, "DATE_RANGE = {'start': '");
    push_text(&mut out, range_start);
    push_text(&mut out, "', 'end': '");
    push_text(&mut out, range_end);
    push_text(&mut out, "'}\n");
    push_text(&mut out, "DATES = [\n");
    let ghost h1 = out@;
    let mut i: usize = 0;
    while i < dates.len()
        invariant
            i <= dates@.len(),
            out@ == h1 + date_lines(entry_views(dates@.take(i as int))),
        decreases dates@.len() - i,
    {
        let ghost before = out@;
        push_text(&mut out, "  {'iso': '");
        push_text(&mut out, dates[i].iso.as_str());
        push_text(&mut out, "', 'yyyymmdd': '");
        push_text(&mut out, dates[i].yyyymmdd.as_str());
        push_text(&mut out, "', 'next_yyyymmdd': '");
        push_text(&mut out, dates[i].next_yyyymmdd.as_str());
        push_text(&mut out, "'},\n");
        proof {
            let ev = entry_views(dates@.take(i + 1));
            assert(ev.drop_last() =~= entry_views(dates@.take(i as int)));
            assert(out@ =~= before + date_line(ev.last()));
        }
        i += 1;
    }
    assert(dates@.take(dates@.len() as int) =~= dates@);
    push_text(&mut out, "]\n");
    push_text(&mut out, "S3_PROFILES = [\n");
    let ghost h2 = out@;
    let mut j: usize = 0;
    while j < profiles.len()
        invariant
            j <= profiles@.len(),
            out@ == h2 + profile_lines(profiles@.take(j as int)),
        decreases profiles@.len() - j,
    {
        let ghost before = out@;
        let p = &profiles[j];
        push_text(&mut out, "  {'profile_name': '");
        push_text(&mut out, esc_single(p.profile_name.as_str()).as_str());
        push_text(&mut out, "', 'endpoint': '");
        push_text(&mut out, esc_single(p.endpoint.as_str()).as_str());
        push_text(&mut out, "', 'bucket': '");
        push_text(&mut out, esc_single(p.bucket.as_str()).as_str());
        push_text(&mut out, "'},\n");
        proof {
            let pv = profiles@.take(j + 1);
            assert(pv.drop_last() =~= profiles@.take(j as int));
            assert(out@ =~= before + profile_line(pv.last()));
        }
        j += 1;
    }
    assert(profiles@.take(profiles@.len() as int) =~= profiles@);
    push_text(&mut out, "]\n");
    push_text(&mut out, "AGENTS = [\n");
    let ghost h3 = out@;
    let mut k: usize = 0;
    while k < agents.len()
        invariant
            k <= agents@.len(),
            out@ == h3 + agent_lines(agents@.take(k as int)),
        decreases agents@.len() - k,
    {
        let ghost before = out@;
        let a = &agents[k];
        push_text(&mut out, "  {'id': '");
        push_text(&mut out, esc_single(a.id.as_str()).as_str());
        push_text(&mut out, "', 'tags': ");
        push_text(&mut out, "{");
        push_text(&mut out, tags_text(&a.tags).as_str());
        push_text(&mut out, "}");
        push_text(&mut out, "},\n");
        proof {
            let av = agents@.take(k + 1);
            assert(av.drop_last() =~= agents@.take(k as int));
            assert(out@ =~= before + agent_line(av.last()));
        }
        k += 1;
    }
    assert(agents@.take(agents@.len() as int) =~= agents@);
    push_text(&mut out, "]\n");
    assert(out@ =~= prelude_spec(cleaned@, today@, range_start@, range_end@, entry_views(dates@), profiles@, agents@));
    out
}

/// The script run for planning: the variables, a line break, then the
/// script's own text.
pub fn script_text(prelude: &str, body: &str) -> (r: String)
    ensures
        r@ == prelude@ + "\n"@ + body@,
{
    let mut out = String::new();
    push_text(&mut out, prelude);
    push_text(&mut out, "\n");
    push_text(&mut out, body);
    out
}

/// The script run for a query on day `today`, with the query it leaves:
/// the context variables (the query without its date directives, today,
/// the date range and its days, the profiles and the agents), a line
/// break, then `body`. `None` where chrono cannot hold a day it needs.
pub open spec fn planning_script_spec(
    query: Seq<char>,
    profiles: Seq<ProfileContext>,
    agents: Seq<AgentContext>,
    body: Seq<char>,
    today: i32,
) -> Option<(Seq<char>, Seq<char>)> {
    if civil_date(today as int) is None {
        None
    } else {
        let (cleaned, range) = date_directives_spec(query, today);
        if range.end == i32::MAX {
            None
        } else {
            match (date_entries_spec(range.start as int, range.end as int), iso_date(today as int),
                iso_date(range.start as int), iso_date(range.end as int)) {
                (Some(d), Some(a), Some(b), Some(c)) => Some((
                    prelude_spec(cleaned, a, b, c, d, profiles, agents) + "\n"@ + body,
                    cleaned,
                )),
                _ => None,
            }
        }
    }
}

/// The script run for a query on day `today` (see `planning_script_spec`).
pub fn planning_script_for(
    query: &str,
    profiles: &Vec<ProfileContext>,
    agents: &Vec<AgentContext>,
    body: &str,
    today: i32,
) -> (r: Option<(String, String)>)
    ensures
        match r {
            Some(p) => planning_script_spec(query@, profiles@, agents@, body@, today) == Some((p.0@, p.1@)),
            None => planning_script_spec(query@, profiles@, agents@, body@, today) is None,
        },
{
    let (cleaned, range) = match parse_date_directives_checked(query, today) {
        Some(p) => p,
        None => return None,
    };
    if range.end == i32::MAX {
        return None;
    }
    let dates = match date_entries(range) {
        Some(d) => d,
        None => return None,
    };
    let t = match iso_date_text(today) {
        Some(x) => x,
        None => return None,
    };
    let s = match iso_date_text(range.start) {
        Some(x) => x,
        None => return None,
    };
    let e = match iso_date_text(range.end) {
        Some(x) => x,
        None => return None,
    };
    let prelude = script_prelude(cleaned.as_str(), t.as_str(), s.as_str(), e.as_str(), &dates, profiles, agents);
    Some((script_text(prelude.as_str(), body), cleaned))
}

/// The script run for a query today in the time zone of Shanghai (taken
/// from the clock), with the query it leaves.
pub fn planning_script(
    query: &str,
    profiles: &Vec<ProfileContext>,
    agents: &Vec<AgentContext>,
    body: &str,
) -> (r: Option<(String, String)>)
    ensures
        exists|today: i32| {
            &&& civil_date(today as int) is Some
            &&& match r {
                Some(p) => #[trigger] planning_script_spec(query@, profiles@, agents@, body@, today) == Some((p.0@, p.1@)),
                None => planning_script_spec(query@, profiles@, agents@, body@, today) is None,
            }
        },
{
    let today = today_in_shanghai();
    planning_script_for(query, profiles, agents, body, today)
}

/// The script used where an application has none of its own: it only
/// declares an empty list of sources.
pub fn default_planner_script() -> (r: String)
    ensures
        r@ == "# 默认空脚本\nSOURCES = []\n"@,
{
    "# 默认空脚本\nSOURCES = []\n".to_owned()
}

} // verus!
