//! Source planning of the "bbip" application: the date directives of a
//! query (`dt:`, `fdt:`, `tdt:`), the split of a date range into today
//! (read from agents) and the days before (read from archives in object
//! storage), and the sources that follow. Days are numbered as chrono's
//! `num_days_from_ce` numbers them (1 is 0001-01-01).
use vstd::prelude::*;
use crate::text::opt_view;
use crate::text::string_views;
use chrono::Datelike;
use crate::text::{chars_of, decimal_digits, decimal_string, seq_starts_with, strip_prefix_str, string_of};
use crate::executor::{split_whitespace, words, space_joined, join_space};

verus! {

/// A range of days, `start <= end`.
#[derive(Debug, Clone, Copy, PartialEq, Eq, Structural)]
pub struct DateRange {
    pub start: i32,
    pub end: i32,
}

impl DateRange {
    /// The range between two days, in whichever order they come.
    pub fn new(a: i32, b: i32) -> (r: DateRange)
        ensures
            a <= b ==> r == (DateRange { start: a, end: b }),
            a > b ==> r == (DateRange { start: b, end: a }),
    {
        if a <= b {
            DateRange { start: a, end: b }
        } else {
            DateRange { start: b, end: a }
        }
    }
}

/// The day that chrono reads from eight digits `YYYYMMDD` (format
/// `%Y%m%d`), if it is a date.
pub uninterp spec fn yyyymmdd_day(s: Seq<char>) -> Option<int>;

/// The eight-digit text `YYYYMMDD` of a civil date (year, month, day).
pub open spec fn ymd_text(t: (int, int, int)) -> Seq<char> {
    padded(t.0, 4) + padded(t.1, 2) + padded(t.2, 2)
}

/// `NaiveDate::parse_from_str(s, "%Y%m%d")`, as a day number. chrono reads
/// `%Y` as up to four digits, then `%m` and `%d` as two each, so the
/// eight-digit text of a date of the years 1 to 9999 reads back as that
/// date (whose day number chrono's numbering gives back).
#[verifier::external_body]
fn parse_yyyymmdd(s: &str) -> (r: Option<i32>)
    ensures
        match r {
            Some(d) => yyyymmdd_day(s@) == Some(d as int),
            None => yyyymmdd_day(s@) is None,
        },
        forall|k: int| i32::MIN <= k <= i32::MAX && (#[trigger] civil_date(k) matches Some(t)
            && 1 <= t.0 <= 9999 && s@ == ymd_text(t)) ==> r == Some(k as i32),
{
    chrono::NaiveDate::parse_from_str(s, "%Y%m%d").ok().map(|d| d.num_days_from_ce())
}

/// The year, month and day of a day number, if chrono can hold it.
pub uninterp spec fn civil_date(day: int) -> Option<(int, int, int)>;

/// `NaiveDate::from_num_days_from_ce_opt(day)`, as year, month and day.
#[verifier::external_body]
pub(crate) fn civil_of_day(day: i32) -> (r: Option<(i32, u32, u32)>)
    ensures
        match r {
            Some(t) => civil_date(day as int) == Some((t.0 as int, t.1 as int, t.2 as int)),
            None => civil_date(day as int) is None,
        },
{
    chrono::NaiveDate::from_num_days_from_ce_opt(day).map(|d| (d.year(), d.month(), d.day()))
}

/// Today's day number in the time zone of Shanghai, from the clock: the
/// `num_days_from_ce` of a date that chrono holds, so a day number that
/// `from_num_days_from_ce_opt` takes back (chrono numbers both from
/// January 1 of year 1 as day 1, and its years lie within 1/2^13 of
/// `i32`'s range, so the number is far above `i32::MIN`). Which day it
/// is depends on the clock and is left unsaid.
#[verifier::external_body]
pub(crate) fn today_in_shanghai() -> (r: i32)
    ensures
        civil_date(r as int) is Some,
        r > i32::MIN,
{
    chrono::Utc::now().with_timezone(&chrono_tz::Asia::Shanghai).date_naive().num_days_from_ce()
}

/// Whether every character of `v` is an ASCII digit.
fn all_ascii_digits(v: &Vec<char>) -> (r: bool)
    ensures
        r == (forall|i: int| 0 <= i < v@.len() ==> '0' <= #[trigger] v@[i] <= '9'),
{
    let mut i: usize = 0;
    while i < v.len()
        invariant
            i <= v@.len(),
            forall|j: int| 0 <= j < i ==> '0' <= #[trigger] v@[j] <= '9',
        decreases v@.len() - i,
    {
        if v[i] < '0' || v[i] > '9' {
            return false;
        }
        i += 1;
    }
    true
}

/// `s` is eight ASCII digits.
pub open spec fn eight_digits(s: Seq<char>) -> bool {
    s.len() == 8 && forall|i: int| 0 <= i < 8 ==> '0' <= #[trigger] s[i] <= '9'
}

/// The date directives of a query seen so far: the last valid `dt:`,
/// `fdt:` and `tdt:` values.
pub struct Directives {
    pub dt: Option<Seq<char>>,
    pub fdt: Option<Seq<char>>,
    pub tdt: Option<Seq<char>>,
}

/// The directives of the words `ws`, read left to right: a word that
/// starts with `dt:`, `fdt:` or `tdt:` (tried in that order) sets that
/// directive where eight digits follow.
pub open spec fn directives_of(ws: Seq<Seq<char>>) -> Directives
    decreases ws.len(),
{
    if ws.len() == 0 {
        Directives { dt: None, fdt: None, tdt: None }
    } else {
        let d = directives_of(ws.drop_last());
        let w = ws.last();
        if seq_starts_with(w, "dt:"@) {
            if eight_digits(w.skip(3)) { Directives { dt: Some(w.skip(3)), ..d } } else { d }
        } else if seq_starts_with(w, "fdt:"@) {
            if eight_digits(w.skip(4)) { Directives { fdt: Some(w.skip(4)), ..d } } else { d }
        } else if seq_starts_with(w, "tdt:"@) {
            if eight_digits(w.skip(4)) { Directives { tdt: Some(w.skip(4)), ..d } } else { d }
        } else {
            d
        }
    }
}

/// The words that are no date directive (do not start with `dt:`, `fdt:`
/// or `tdt:`).
pub open spec fn non_directive_words(ws: Seq<Seq<char>>) -> Seq<Seq<char>>
    decreases ws.len(),
{
    if ws.len() == 0 {
        ws
    } else if is_directive_word(ws.last()) {
        non_directive_words(ws.drop_last())
    } else {
        non_directive_words(ws.drop_last()).push(ws.last())
    }
}

/// `w` starts with `dt:`, `fdt:` or `tdt:`.
pub open spec fn is_directive_word(w: Seq<char>) -> bool {
    seq_starts_with(w, "dt:"@) || seq_starts_with(w, "fdt:"@) || seq_starts_with(w, "tdt:"@)
}

/// `n` written with at least `width` characters, zeros after any sign
/// (as `{:0width}` writes an integer).
pub open spec fn padded(n: int, width: nat) -> Seq<char> {
    let digits = decimal_digits(if n < 0 { (-n) as nat } else { n as nat });
    let sign = if n < 0 { seq!['-'] } else { Seq::<char>::empty() };
    let fill = if sign.len() + digits.len() < width { (width - sign.len() - digits.len()) as nat } else { 0 };
    sign + Seq::new(fill, |i: int| '0') + digits
}

/// `n` written in decimal (as `{}` writes an integer).
pub open spec fn plain(n: int) -> Seq<char> {
    padded(n, 0)
}

/// Writes `n` with at least `width` characters, zeros after any sign.
pub fn write_padded(n: i64, width: usize) -> (r: String)
    ensures
        r@ == padded(n as int, width as nat),
{
    let mag: u64 = if n < 0 { (-(n as i128)) as u64 } else { n as u64 };
    let digits = decimal_string(mag);
    let dv = chars_of(digits.as_str());
    let neg = n < 0;
    let sign_len: usize = if neg { 1 } else { 0 };
    let mut out: Vec<char> = Vec::new();
    if neg {
        out.push('-');
    }
    let fill: usize = if dv.len() < width && sign_len + dv.len() < width { width - sign_len - dv.len() } else { 0 };
    let mut i: usize = 0;
    while i < fill
        invariant
            i <= fill,
            out@ == (if neg { seq!['-'] } else { Seq::<char>::empty() }) + Seq::new(i as nat, |k: int| '0'),
        decreases fill - i,
    {
        out.push('0');
        assert(Seq::new((i + 1) as nat, |k: int| '0') =~= Seq::new(i as nat, |k: int| '0').push('0'));
        i += 1;
    }
    let mut j: usize = 0;
    let ghost head = out@;
    while j < dv.len()
        invariant
            j <= dv@.len(),
            out@ == head + dv@.take(j as int),
        decreases dv@.len() - j,
    {
        out.push(dv[j]);
        assert(dv@.take(j as int + 1) =~= dv@.take(j as int).push(dv@[j as int]));
        j += 1;
    }
    assert(dv@.take(dv@.len() as int) =~= dv@);
    assert(mag as nat == (if n < 0 { (-n) as nat } else { n as nat }));
    string_of(out.as_slice())
}

/// The query without its date directives (words joined by single spaces)
/// and the date range they give: `dt:` for one day; else `fdt:` to `tdt:`,
/// either alone for one day; else today. A value that is no date (and
/// today's own text, should it not read back) stands for today.
pub open spec fn date_directives_spec(q: Seq<char>, today: i32) -> (Seq<char>, DateRange) {
    let ws = words(q);
    let d = directives_of(ws);
    let today_text = padded(civil_date(today as int).unwrap().0, 4) + padded(civil_date(today as int).unwrap().1, 2)
        + padded(civil_date(today as int).unwrap().2, 2);
    let (s, e) = match d.dt {
        Some(x) => (x, x),
        None => match (d.fdt, d.tdt) {
            (Some(a), Some(b)) => (a, b),
            (Some(a), None) => (a, a),
            (None, Some(b)) => (b, b),
            (None, None) => (today_text, today_text),
        },
    };
    let day_of = |t: Seq<char>| match yyyymmdd_day(t) {
        Some(n) => n as i32,
        None => today,
    };
    let a = day_of(s);
    let b = day_of(e);
    (space_joined(non_directive_words(ws)), if a <= b { DateRange { start: a, end: b } } else { DateRange { start: b, end: a } })
}

/// The query holds no valid date directive.
pub open spec fn no_directives(q: Seq<char>) -> bool {
    let d = directives_of(words(q));
    d.dt is None && d.fdt is None && d.tdt is None
}

/// The value of a directive after `prefix` in word `w`, where eight
/// digits follow.
fn directive_value(w: &str, prefix: &str) -> (r: (bool, Option<String>))
    ensures
        r.0 == seq_starts_with(w@, prefix@),
        r.0 && eight_digits(w@.skip(prefix@.len() as int)) ==> (r.1 matches Some(v) && v@ == w@.skip(prefix@.len() as int)),
        !(r.0 && eight_digits(w@.skip(prefix@.len() as int))) ==> r.1 is None,
{
    match strip_prefix_str(w, prefix) {
        Some(rest) => {
            let v = chars_of(rest);
            if v.len() == 8 && all_ascii_digits(&v) {
                (true, Some(String::from_str(rest)))
            } else {
                (true, None)
            }
        },
        None => (false, None),
    }
}

/// Reads the date directives of a query (see `date_directives_spec`);
/// today is the day number `today`, which chrono must be able to hold.
pub fn parse_date_directives_from_query(q_raw: &str, today: i32) -> (r: (String, DateRange))
    requires
        civil_date(today as int) is Some,
    ensures
        (r.0@, r.1) == date_directives_spec(q_raw@, today),
        no_directives(q_raw@) && 1 <= civil_date(today as int).unwrap().0 <= 9999
            ==> r.1 == (DateRange { start: today, end: today }),
{
    let ws = split_whitespace(q_raw);
    let ghost all = ws@.map_values(|w: String| w@);
    let mut dt: Option<String> = None;
    let mut fdt: Option<String> = None;
    let mut tdt: Option<String> = None;
    let mut kept: Vec<String> = Vec::new();
    let mut k: usize = 0;
    while k < ws.len()
        invariant
            k <= ws@.len(),
            all == ws@.map_values(|w: String| w@),
            ({
                let d = directives_of(all.take(k as int));
                &&& opt_view(dt) == d.dt
                &&& opt_view(fdt) == d.fdt
                &&& opt_view(tdt) == d.tdt
            }),
            string_views(kept@) == non_directive_words(all.take(k as int)),
        decreases ws@.len() - k,
    {
        let ghost prefix = all.take(k as int);
        let ghost next = all.take(k as int + 1);
        assert(next.drop_last() =~= prefix);
        assert(next.last() == ws@[k as int]@);
        let w = ws[k].as_str();
        let (is_dt, v_dt) = directive_value(w, "dt:");
        let (is_fdt, v_fdt) = directive_value(w, "fdt:");
        let (is_tdt, v_tdt) = directive_value(w, "tdt:");
        proof {
            reveal_strlit("dt:");
            reveal_strlit("fdt:");
            reveal_strlit("tdt:");
        }
        if is_dt {
            if v_dt.is_some() {
                dt = v_dt;
            }
        } else if is_fdt {
            if v_fdt.is_some() {
                fdt = v_fdt;
            }
        } else if is_tdt {
            if v_tdt.is_some() {
                tdt = v_tdt;
            }
        }
        if !(is_dt || is_fdt || is_tdt) {
            let ghost before = kept@;
            kept.push(ws[k].clone());
            assert(string_views(kept@) =~= string_views(before).push(ws@[k as int]@));
        }
        k += 1;
    }
    assert(all.take(ws@.len() as int) =~= all);
    let (y, m, d) = civil_of_day(today).unwrap();
    let mut today_text = write_padded(y as i64, 4);
    let mm = write_padded(m as i64, 2);
    let dd = write_padded(d as i64, 2);
    today_text.append(mm.as_str());
    today_text.append(dd.as_str());
    let (start_text, end_text) = match dt {
        Some(x) => (x.clone(), x),
        None => match (fdt, tdt) {
            (Some(a), Some(b)) => (a, b),
            (Some(a), None) => (a.clone(), a),
            (None, Some(b)) => (b.clone(), b),
            (None, None) => (today_text.clone(), today_text),
        },
    };
    let a = match parse_yyyymmdd(start_text.as_str()) {
        Some(n) => n,
        None => today,
    };
    let b = match parse_yyyymmdd(end_text.as_str()) {
        Some(n) => n,
        None => today,
    };
    let cleaned = join_space(&kept);
    (cleaned, DateRange::new(a, b))
}

/// `parse_date_directives_from_query` where chrono can hold the day
/// `today`, `None` where it cannot.
pub fn parse_date_directives_checked(q_raw: &str, today: i32) -> (r: Option<(String, DateRange)>)
    ensures
        r is Some <==> civil_date(today as int) is Some,
        r matches Some(p) ==> (p.0@, p.1) == date_directives_spec(q_raw@, today),
{
    match civil_of_day(today) {
        Some(_) => Some(parse_date_directives_from_query(q_raw, today)),
        None => None,
    }
}

/// A range split at today: the part from today on (read from agents) and
/// the part before (read from archives).
pub open spec fn split_spec(range: DateRange, today: i32) -> (Option<DateRange>, Option<DateRange>) {
    let yesterday = today - 1;
    if range.end <= yesterday {
        (None, Some(range))
    } else if range.start >= today {
        (Some(range), None)
    } else {
        (
            Some(DateRange { start: today, end: range.end }),
            if range.start <= yesterday { Some(DateRange { start: range.start, end: yesterday as i32 }) } else { None },
        )
    }
}

/// Splits a range (`start <= end`) at today: the days from today on, and
/// the days before it.
pub fn split_date_range_by_today(range: DateRange, today: i32) -> (r: (Option<DateRange>, Option<DateRange>))
    requires
        range.start <= range.end,
        today > i32::MIN,
    ensures
        r == split_spec(range, today),
{
    let yesterday = today - 1;
    if range.end <= yesterday {
        return (None, Some(range));
    }
    if range.start >= today {
        return (Some(range), None);
    }
    let historical = if range.start <= yesterday { Some(DateRange::new(range.start, yesterday)) } else { None };
    let current = Some(DateRange::new(today, range.end));
    (current, historical)
}

/// Whether `d` is one of the days of an optional range.
pub open spec fn in_part(part: Option<DateRange>, d: int) -> bool {
    match part {
        Some(r) => r.start <= d <= r.end,
        None => false,
    }
}

/// Splitting a range at today loses no day and adds none: each day of the
/// range lies in exactly one part, the current part holds only days from
/// today on, the historical part only days before it, and each part that
/// is there is a range with its start not after its end.
pub proof fn lemma_split_partitions(range: DateRange, today: i32, d: int)
    requires
        range.start <= range.end,
        today > i32::MIN,
    ensures
        ({
            let (current, historical) = split_spec(range, today);
            &&& (range.start <= d <= range.end) <==> (in_part(current, d) || in_part(historical, d))
            &&& !(in_part(current, d) && in_part(historical, d))
            &&& in_part(current, d) ==> d >= today
            &&& in_part(historical, d) ==> d < today
            &&& (current matches Some(c) ==> c.start <= c.end)
            &&& (historical matches Some(h) ==> h.start <= h.end)
        }),
{
}

/// A source to search, as a planner gives it.
#[derive(Debug, Clone)]
pub enum SourceConfig {
    /// An agent, searched under `scope_root`, keeping the paths that match
    /// `path_filter_glob`.
    Agent { endpoint: String, scope_root: Option<String>, path_filter_glob: Option<String> },
    /// Objects of a storage profile: one key, or a prefix and pattern.
    S3 { profile: String, bucket: Option<String>, prefix: Option<String>, pattern: Option<String>, key: Option<String> },
}

/// A source as the contracts see it.
pub enum SourceView {
    Agent { endpoint: Seq<char>, scope_root: Option<Seq<char>>, path_filter_glob: Option<Seq<char>> },
    S3 { profile: Seq<char>, bucket: Option<Seq<char>>, prefix: Option<Seq<char>>, pattern: Option<Seq<char>>, key: Option<Seq<char>> },
}

impl View for SourceConfig {
    type V = SourceView;

    open spec fn view(&self) -> SourceView {
        match self {
            SourceConfig::Agent { endpoint, scope_root, path_filter_glob } => SourceView::Agent {
                endpoint: endpoint@,
                scope_root: opt_view(*scope_root),
                path_filter_glob: opt_view(*path_filter_glob),
            },
            SourceConfig::S3 { profile, bucket, prefix, pattern, key } => SourceView::S3 {
                profile: profile@,
                bucket: opt_view(*bucket),
                prefix: opt_view(*prefix),
                pattern: opt_view(*pattern),
                key: opt_view(*key),
            },
        }
    }
}

/// The sources a planner gives, and the query left once its directives
/// are taken out.
#[derive(Debug)]
pub struct PlanResult {
    pub sources: Vec<SourceConfig>,
    pub cleaned_query: String,
}

/// What the planner reads of an object storage profile.
#[derive(Debug, Clone)]
pub struct PlannerProfile {
    pub profile_name: String,
    pub bucket: String,
}

/// The `YYYY-MM-DD` text of a day as chrono writes it (format `%Y-%m-%d`).
pub uninterp spec fn iso_date(day: int) -> Option<Seq<char>>;

/// `NaiveDate::from_num_days_from_ce_opt(day)` written with `%Y-%m-%d`.
#[verifier::external_body]
pub(crate) fn iso_date_text(day: i32) -> (r: Option<String>)
    ensures
        opt_view(r) == iso_date(day as int),
{
    chrono::NaiveDate::from_num_days_from_ce_opt(day).map(|d| d.format("%Y-%m-%d").to_string())
}

/// The storage buckets of the archives, one archive per bucket and day.
pub open spec fn bucket_names() -> Seq<Seq<char>> {
    seq!["20"@, "21"@, "22"@, "23"@]
}

/// The object key of the archive of day `d` in bucket `b`: filed under
/// the next day's year, month and date, named after day `d`.
pub open spec fn archive_key(d: int, b: Seq<char>) -> Seq<char> {
    let (y, m, dd) = civil_date(d + 1).unwrap();
    let (y0, m0, d0) = civil_date(d).unwrap();
    "bbip/"@ + plain(y) + "/"@ + padded(y, 4) + padded(m, 2) + "/"@ + padded(y, 4) + padded(m, 2) + padded(dd, 2)
        + "/BBIP_"@ + b + "_APPLOG_"@ + padded(y0, 4) + "-"@ + padded(m0, 2) + "-"@ + padded(d0, 2) + ".tar.gz"@
}

/// The archive sources of day `d` for one profile: one per bucket.
pub open spec fn profile_sources(d: int, p: PlannerProfile) -> Seq<SourceView> {
    bucket_names().map_values(|b: Seq<char>| SourceView::S3 {
        profile: p.profile_name@,
        bucket: Some(p.bucket@),
        prefix: None,
        pattern: None,
        key: Some(archive_key(d, b)),
    })
}

/// The archive sources of day `d` for the first `n` profiles, in order
/// (none where chrono cannot hold the day or the next one).
pub open spec fn day_sources(d: int, profiles: Seq<PlannerProfile>, n: int) -> Seq<SourceView>
    decreases n,
{
    if n <= 0 || civil_date(d) is None || civil_date(d + 1) is None {
        Seq::empty()
    } else {
        day_sources(d, profiles, n - 1) + profile_sources(d, profiles[n - 1])
    }
}

/// The archive sources of the days `start ..= end`, day by day.
pub open spec fn range_sources(start: int, end: int, profiles: Seq<PlannerProfile>) -> Seq<SourceView>
    decreases end - start + 1,
{
    if end < start {
        Seq::empty()
    } else {
        range_sources(start, end - 1, profiles) + day_sources(end, profiles, profiles.len() as int)
    }
}

/// The archive of day `d` in bucket number `k` for profile `p`.
pub open spec fn archive_of(d: int, p: PlannerProfile, k: int) -> SourceView {
    SourceView::S3 {
        profile: p.profile_name@,
        bucket: Some(p.bucket@),
        prefix: None,
        pattern: None,
        key: Some(archive_key(d, bucket_names()[k])),
    }
}

/// chrono can write day `d` and the day after it.
pub open spec fn day_known(d: int) -> bool {
    civil_date(d) is Some && civil_date(d + 1) is Some
}

/// The sources of one day hold, for a known day, the archive of each of
/// the first `n` profiles in each of the four buckets, and nothing else.
proof fn lemma_day_sources(d: int, profiles: Seq<PlannerProfile>, n: int)
    requires
        0 <= n <= profiles.len(),
    ensures
        day_known(d) ==> day_sources(d, profiles, n).len() == 4 * n,
        !day_known(d) ==> day_sources(d, profiles, n).len() == 0,
        forall|i: int, k: int| 0 <= i < n && 0 <= k < 4 && day_known(d)
            ==> #[trigger] day_sources(d, profiles, n).contains(archive_of(d, profiles[i], k)),
        forall|j: int| 0 <= j < day_sources(d, profiles, n).len() ==> exists|i: int, k: int|
            0 <= i < n && 0 <= k < 4 && #[trigger] day_sources(d, profiles, n)[j] == archive_of(d, profiles[i], k),
    decreases n,
{
    if n > 0 && day_known(d) {
        lemma_day_sources(d, profiles, n - 1);
        let a = day_sources(d, profiles, n - 1);
        let b = profile_sources(d, profiles[n - 1]);
        let s = day_sources(d, profiles, n);
        assert(s == a + b);
        assert(b.len() == 4);
        assert forall|k: int| 0 <= k < 4 implies #[trigger] b[k] == archive_of(d, profiles[n - 1], k) by {}
        assert forall|i: int, k: int| 0 <= i < n && 0 <= k < 4 implies #[trigger] s.contains(archive_of(d, profiles[i], k)) by {
            if i < n - 1 {
                assert(a.contains(archive_of(d, profiles[i], k)));
                let j = choose|j: int| 0 <= j < a.len() && a[j] == archive_of(d, profiles[i], k);
                assert(s[j] == a[j]);
            } else {
                assert(s[a.len() + k] == b[k]);
            }
        }
        assert forall|j: int| 0 <= j < s.len() implies exists|i: int, k: int|
            0 <= i < n && 0 <= k < 4 && #[trigger] s[j] == archive_of(d, profiles[i], k) by {
            if j < a.len() {
                assert(s[j] == a[j]);
                let (i, k) = choose|i: int, k: int| 0 <= i < n - 1 && 0 <= k < 4 && #[trigger] a[j] == archive_of(d, profiles[i], k);
                assert(s[j] == archive_of(d, profiles[i], k));
            } else {
                let k = j - a.len();
                assert(s[j] == b[k]);
                assert(s[j] == archive_of(d, profiles[n - 1], k));
            }
        }
    }
}

/// The archive sources of a range of days: for every known day `d` with
/// `start <= d <= end`, one source for each profile and each of the four
/// buckets, whose key names day `d`; every source is one of these; and
/// where every day of the range is known, there are
/// `(end - start + 1) * profiles * 4` of them.
pub proof fn lemma_range_sources(start: int, end: int, profiles: Seq<PlannerProfile>)
    ensures
        forall|d: int, i: int, k: int| start <= d <= end && day_known(d) && 0 <= i < profiles.len() && 0 <= k < 4
            ==> #[trigger] range_sources(start, end, profiles).contains(archive_of(d, profiles[i], k)),
        forall|j: int| 0 <= j < range_sources(start, end, profiles).len() ==> exists|d: int, i: int, k: int|
            start <= d <= end && 0 <= i < profiles.len() && 0 <= k < 4
            && #[trigger] range_sources(start, end, profiles)[j] == archive_of(d, profiles[i], k),
        (forall|d: int| start <= d <= end ==> #[trigger] day_known(d)) ==> range_sources(start, end, profiles).len()
            == (if end >= start { end - start + 1 } else { 0 }) * profiles.len() * 4,
    decreases end - start + 1,
{
    if end >= start {
        lemma_range_sources(start, end - 1, profiles);
        lemma_day_sources(end, profiles, profiles.len() as int);
        let a = range_sources(start, end - 1, profiles);
        let b = day_sources(end, profiles, profiles.len() as int);
        let s = range_sources(start, end, profiles);
        assert(s == a + b);
        assert forall|d: int, i: int, k: int| start <= d <= end && day_known(d) && 0 <= i < profiles.len() && 0 <= k < 4
            implies #[trigger] s.contains(archive_of(d, profiles[i], k)) by {
            if d < end {
                assert(a.contains(archive_of(d, profiles[i], k)));
                let j = choose|j: int| 0 <= j < a.len() && a[j] == archive_of(d, profiles[i], k);
                assert(s[j] == a[j]);
            } else {
                assert(b.contains(archive_of(d, profiles[i], k)));
                let j = choose|j: int| 0 <= j < b.len() && b[j] == archive_of(d, profiles[i], k);
                assert(s[a.len() + j] == b[j]);
            }
        }
        assert forall|j: int| 0 <= j < s.len() implies exists|d: int, i: int, k: int|
            start <= d <= end && 0 <= i < profiles.len() && 0 <= k < 4
            && #[trigger] s[j] == archive_of(d, profiles[i], k) by {
            if j < a.len() {
                assert(s[j] == a[j]);
                let (d, i, k) = choose|d: int, i: int, k: int| start <= d <= end - 1 && 0 <= i < profiles.len() && 0 <= k < 4
                    && #[trigger] a[j] == archive_of(d, profiles[i], k);
                assert(s[j] == archive_of(d, profiles[i], k));
            } else {
                let jj = j - a.len();
                assert(s[j] == b[jj]);
                let (i, k) = choose|i: int, k: int| 0 <= i < profiles.len() && 0 <= k < 4 && #[trigger] b[jj] == archive_of(end, profiles[i], k);
                assert(s[j] == archive_of(end, profiles[i], k));
            }
        }
        if forall|d: int| start <= d <= end ==> #[trigger] day_known(d) {
            assert(day_known(end));
            let n = profiles.len() as int;
            let w = end - start;
            assert(a.len() == w * n * 4) by {
                assert forall|d: int| start <= d <= end - 1 implies #[trigger] day_known(d) by {}
                if end - 1 < start {
                    assert(w == 0);
                }
            }
            assert(w * n * 4 + 4 * n == (w + 1) * n * 4) by (nonlinear_arith);
        }
    }
}

/// The agent sources of today: each endpoint, under `logs`, keeping the
/// paths of today's directory (none where chrono cannot write today).
pub open spec fn agent_sources(endpoints: Seq<String>, today: i32) -> Seq<SourceView> {
    match iso_date(today as int) {
        Some(t) => endpoints.map_values(|e: String| SourceView::Agent {
            endpoint: e@,
            scope_root: Some("logs"@),
            path_filter_glob: Some("**/"@ + t + "/**"@),
        }),
        None => Seq::empty(),
    }
}

/// The sources of a query's date range split at today: agents for the part
/// from today on (if there are agents), archives for the part before (if
/// there are profiles).
pub open spec fn plan_spec(
    range: DateRange,
    profiles: Seq<PlannerProfile>,
    endpoints: Seq<String>,
    today: i32,
) -> Seq<SourceView> {
    let (current, historical) = split_spec(range, today);
    let agents = if current is Some && endpoints.len() > 0 { agent_sources(endpoints, today) } else { Seq::empty() };
    let archives = match historical {
        Some(h) => if profiles.len() > 0 { range_sources(h.start as int, h.end as int, profiles) } else { Seq::empty() },
        None => Seq::empty(),
    };
    agents + archives
}

/// The views of a list of sources.
pub open spec fn source_views(v: Seq<SourceConfig>) -> Seq<SourceView> {
    v.map_values(|c: SourceConfig| c@)
}

/// Writes the archive key of day `d` in bucket `b` (see `archive_key`).
fn write_archive_key(d: i32, b: &str, next: (i32, u32, u32), this: (i32, u32, u32)) -> (r: String)
    requires
        civil_date(d as int + 1) == Some((next.0 as int, next.1 as int, next.2 as int)),
        civil_date(d as int) == Some((this.0 as int, this.1 as int, this.2 as int)),
    ensures
        r@ == archive_key(d as int, b@),
{
    let (y, m, dd) = next;
    let (y0, m0, d0) = this;
    let mut k = String::from_str("bbip/");
    k.append(write_padded(y as i64, 0).as_str());
    k.append("/");
    k.append(write_padded(y as i64, 4).as_str());
    k.append(write_padded(m as i64, 2).as_str());
    k.append("/");
    k.append(write_padded(y as i64, 4).as_str());
    k.append(write_padded(m as i64, 2).as_str());
    k.append(write_padded(dd as i64, 2).as_str());
    k.append("/BBIP_");
    k.append(b);
    k.append("_APPLOG_");
    k.append(write_padded(y0 as i64, 4).as_str());
    k.append("-");
    k.append(write_padded(m0 as i64, 2).as_str());
    k.append("-");
    k.append(write_padded(d0 as i64, 2).as_str());
    k.append(".tar.gz");
    k
}

/// The planner of the "bbip" application.
#[derive(Debug)]
pub struct BbipPlanner;

impl BbipPlanner {
    /// The application this planner serves.
    pub fn app_id(&self) -> (r: &'static str)
        ensures
            r@ == "bbip"@,
    {
        "bbip"
    }

    /// The sources of a query (see `plan_spec`) and the query without its
    /// date directives, for the given profiles, agent endpoints and today.
    pub fn plan_sources(
        &self,
        profiles: &Vec<PlannerProfile>,
        agent_endpoints: &Vec<String>,
        query: &str,
        today: i32,
    ) -> (r: PlanResult)
        requires
            civil_date(today as int) is Some,
            today > i32::MIN,
        ensures
            r.cleaned_query@ == date_directives_spec(query@, today).0,
            source_views(r.sources@) == plan_spec(date_directives_spec(query@, today).1, profiles@, agent_endpoints@, today),
    {
        let (cleaned_query, range) = parse_date_directives_from_query(query, today);
        let (current, historical) = split_date_range_by_today(range, today);
        let mut sources: Vec<SourceConfig> = Vec::new();
        if current.is_some() && agent_endpoints.len() > 0 {
            match iso_date_text(today) {
                Some(t) => {
                    let mut glob = String::from_str("**/");
                    glob.append(t.as_str());
                    glob.append("/**");
                    let mut i: usize = 0;
                    while i < agent_endpoints.len()
                        invariant
                            i <= agent_endpoints@.len(),
                            iso_date(today as int) == Some(t@),
                            glob@ == "**/"@ + t@ + "/**"@,
                            source_views(sources@) == agent_sources(agent_endpoints@.take(i as int), today),
                        decreases agent_endpoints@.len() - i,
                    {
                        let ghost before = sources@;
                        sources.push(SourceConfig::Agent {
                            endpoint: agent_endpoints[i].clone(),
                            scope_root: Some(String::from_str("logs")),
                            path_filter_glob: Some(glob.clone()),
                        });
                        assert(source_views(sources@) =~= source_views(before).push(sources@.last()@));
                        assert(agent_sources(agent_endpoints@.take(i as int + 1), today)
                            =~= agent_sources(agent_endpoints@.take(i as int), today).push(sources@.last()@));
                        i += 1;
                    }
                    assert(agent_endpoints@.take(agent_endpoints@.len() as int) =~= agent_endpoints@);
                },
                None => {
                    assert(source_views(sources@) =~= Seq::<SourceView>::empty());
                },
            }
        } else {
            assert(source_views(sources@) =~= Seq::<SourceView>::empty());
        }
        let ghost agents = source_views(sources@);
        match historical {
            Some(h) => {
                if profiles.len() > 0 {
                    self.push_archives(&mut sources, profiles, h.start, h.end);
                } else {
                    assert(agents + Seq::<SourceView>::empty() =~= agents);
                }
            },
            None => {
                assert(agents + Seq::<SourceView>::empty() =~= agents);
            },
        }
        PlanResult { sources, cleaned_query }
    }

    /// Appends the archive sources of the days `start ..= end`.
    /// `plan_sources` where chrono can hold today (and the day before),
    /// `None` where it cannot.
    pub fn plan_checked(
        &self,
        profiles: &Vec<PlannerProfile>,
        agent_endpoints: &Vec<String>,
        query: &str,
        today: i32,
    ) -> (r: Option<PlanResult>)
        ensures
            r is Some <==> (civil_date(today as int) is Some && today > i32::MIN),
            r matches Some(p) ==> {
                &&& p.cleaned_query@ == date_directives_spec(query@, today).0
                &&& source_views(p.sources@) == plan_spec(date_directives_spec(query@, today).1, profiles@, agent_endpoints@, today)
            },
    {
        if today == i32::MIN {
            return None;
        }
        match civil_of_day(today) {
            Some(_) => Some(self.plan_sources(profiles, agent_endpoints, query, today)),
            None => None,
        }
    }

    /// The plan of a query for today in the time zone of Shanghai (taken
    /// from the clock). Today is always a day chrono holds, so there is
    /// always a plan.
    pub fn plan(&self, profiles: &Vec<PlannerProfile>, agent_endpoints: &Vec<String>, query: &str) -> (r: Option<PlanResult>)
        ensures
            r is Some,
            r matches Some(p) ==> exists|today: i32| {
                &&& civil_date(today as int) is Some
                &&& p.cleaned_query@ == #[trigger] date_directives_spec(query@, today).0
                &&& source_views(p.sources@) == plan_spec(date_directives_spec(query@, today).1, profiles@, agent_endpoints@, today)
            },
    {
        let today = today_in_shanghai();
        self.plan_checked(profiles, agent_endpoints, query, today)
    }

    fn push_archives(&self, sources: &mut Vec<SourceConfig>, profiles: &Vec<PlannerProfile>, start: i32, end: i32)
        requires
            end < i32::MAX,
        ensures
            source_views(final(sources)@) == source_views(old(sources)@) + range_sources(start as int, end as int, profiles@),
    {
        let ghost base = source_views(sources@);
        if start > end {
            assert(base + range_sources(start as int, end as int, profiles@) =~= base);
            return;
        }
        let mut d = start;
        assert(range_sources(start as int, start - 1, profiles@) =~= Seq::<SourceView>::empty());
        assert(base + Seq::<SourceView>::empty() =~= base);
        while d <= end
            invariant
                start <= d <= end + 1,
                end < i32::MAX,
                source_views(sources@) == base + range_sources(start as int, d - 1, profiles@),
            decreases end + 1 - d,
        {
            let ghost before = source_views(sources@);
            let next = civil_of_day(d + 1);
            let this = civil_of_day(d);
            match (next, this) {
                (Some(n), Some(t)) => {
                    let mut p: usize = 0;
                    while p < profiles.len()
                        invariant
                            p <= profiles@.len(),
                            civil_date(d as int + 1) == Some((n.0 as int, n.1 as int, n.2 as int)),
                            civil_date(d as int) == Some((t.0 as int, t.1 as int, t.2 as int)),
                            source_views(sources@) == before + day_sources(d as int, profiles@, p as int),
                        decreases profiles@.len() - p,
                    {
                        let ghost mid = source_views(sources@);
                        let buckets: Vec<&str> = vec!["20", "21", "22", "23"];
                        proof {
                            reveal_strlit("20");
                            reveal_strlit("21");
                            reveal_strlit("22");
                            reveal_strlit("23");
                        }
                        let mut b: usize = 0;
                        while b < 4
                            invariant
                                b <= 4,
                                p < profiles@.len(),
                                buckets@.len() == 4,
                                forall|i: int| 0 <= i < 4 ==> #[trigger] buckets@[i]@ == bucket_names()[i],
                                civil_date(d as int + 1) == Some((n.0 as int, n.1 as int, n.2 as int)),
                                civil_date(d as int) == Some((t.0 as int, t.1 as int, t.2 as int)),
                                source_views(sources@) == mid + profile_sources(d as int, profiles@[p as int]).take(b as int),
                            decreases 4 - b,
                        {
                            let key = write_archive_key(d, buckets[b], n, t);
                            let ghost prev = sources@;
                            sources.push(SourceConfig::S3 {
                                profile: profiles[p].profile_name.clone(),
                                bucket: Some(profiles[p].bucket.clone()),
                                prefix: None,
                                pattern: None,
                                key: Some(key),
                            });
                            assert(source_views(sources@) =~= source_views(prev).push(sources@.last()@));
                            assert(profile_sources(d as int, profiles@[p as int]).take(b + 1)
                                =~= profile_sources(d as int, profiles@[p as int]).take(b as int).push(sources@.last()@));
                            b += 1;
                        }
                        assert(profile_sources(d as int, profiles@[p as int]).take(4) =~= profile_sources(d as int, profiles@[p as int]));
                        p += 1;
                    }
                },
                _ => {},
            }
            assert(before + day_sources(d as int, profiles@, profiles@.len() as int) =~= source_views(sources@));
            d += 1;
        }
    }
}

} // verus!
