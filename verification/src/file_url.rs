//! The file URL that names a searched file wherever it lives:
//! `ls://[id@]<endpoint_type>[.server]/<path>[?entry=<entry>]`, such as
//! `ls://local/var/log/syslog`, `ls://web-01@agent.hk-prod/app.log` or
//! `ls://prod@s3/logs/2023/data.tgz?entry=access.log`.
use vstd::prelude::*;
use crate::text::opt_view;
use crate::text::{
    chars_between, chars_of, decimal_digits, decimal_string, find_from, first_occurrence,
    lemma_first_occurrence, lemma_first_occurrence_spec, lemma_no_occurrence, occurs_at, seq_ends_with, parse_uint, parse_uint_spec, seq_starts_with, string_of,
};
use crate::config::{Endpoint, Source, Target};
pub use crate::search::EntrySourceType;

verus! {

#[verifier::external_type_specification]
#[verifier::external_body]
pub struct ExUrlParseError(url::ParseError);

/// The kind of endpoint a file lives on.
#[derive(Debug, Clone, Copy, PartialEq, Eq, Structural)]
pub enum EndpointType {
    Local,
    Agent,
    S3,
}

/// Whether the URL names a file (or directory) or an entry of an archive.
#[derive(Debug, Clone, Copy, PartialEq, Eq, Structural)]
pub enum TargetType {
    /// A regular file or directory.
    Dir,
    /// A file inside an archive.
    Archive,
}

/// A file URL.
#[derive(Debug, Clone)]
pub struct FileUrl {
    pub server_addr: Option<String>,
    pub endpoint_type: EndpointType,
    pub endpoint_id: String,
    pub target_type: TargetType,
    pub path: String,
    pub entry_path: Option<String>,
}

/// Failures of reading a file URL.
#[derive(Debug)]
pub enum FileUrlError {
    InvalidFormat(String),
    UnsupportedScheme(String),
    InvalidEndpointType(String),
    InvalidTargetType(String),
    MissingField(String),
    ParseError(url::ParseError),
}

/// The text of a URL parse error (its `Display` form, fixed by the `url`
/// crate for each kind of error); nothing is stated of it here.
#[verifier::external_body]
fn url_error_text(e: &url::ParseError) -> (r: String) {
    e.to_string()
}

/// The text of a file URL error, without the `url` crate's own part.
pub open spec fn file_url_error_message(e: FileUrlError) -> Option<Seq<char>> {
    match e {
        FileUrlError::InvalidFormat(s) => Some("Invalid URL format: "@ + s@),
        FileUrlError::UnsupportedScheme(s) => Some("Unsupported scheme: "@ + s@),
        FileUrlError::InvalidEndpointType(s) => Some("Invalid endpoint type: "@ + s@),
        FileUrlError::InvalidTargetType(s) => Some("Invalid target type: "@ + s@),
        FileUrlError::MissingField(s) => Some("Missing required field: "@ + s@),
        FileUrlError::ParseError(_) => None,
    }
}

impl FileUrlError {
    /// The text of the error; a parse error's text is `URL parsing error: `
    /// followed by the `url` crate's text of it.
    pub fn message(&self) -> (r: String)
        ensures
            file_url_error_message(*self) matches Some(m) ==> r@ == m,
            self is ParseError ==> seq_starts_with(r@, "URL parsing error: "@),
    {
        let (prefix, rest): (&str, String) = match self {
            FileUrlError::InvalidFormat(s) => ("Invalid URL format: ", s.clone()),
            FileUrlError::UnsupportedScheme(s) => ("Unsupported scheme: ", s.clone()),
            FileUrlError::InvalidEndpointType(s) => ("Invalid endpoint type: ", s.clone()),
            FileUrlError::InvalidTargetType(s) => ("Invalid target type: ", s.clone()),
            FileUrlError::MissingField(s) => ("Missing required field: ", s.clone()),
            FileUrlError::ParseError(e) => ("URL parsing error: ", url_error_text(e)),
        };
        let r = concat2(prefix, rest.as_str());
        assert(r@.subrange(0, prefix@.len() as int) =~= prefix@);
        r
    }
}

/// `s` split at the first `c`: the part before and the part after.
pub open spec fn split_first(s: Seq<char>, c: char) -> Option<(Seq<char>, Seq<char>)> {
    match first_occurrence(s, seq![c]) {
        Some(i) => Some((s.take(i), s.skip(i + 1))),
        None => None,
    }
}

/// The part of `s` after its last `c` (all of `s` without one).
pub open spec fn after_last(s: Seq<char>, c: char) -> Seq<char>
    decreases s.len(),
{
    if s.len() == 0 {
        s
    } else if s.last() == c {
        Seq::empty()
    } else {
        after_last(s.drop_last(), c).push(s.last())
    }
}

/// Splits `s` at its first `c`.
pub fn split_once_char(s: &str, c: char) -> (r: Option<(String, String)>)
    ensures
        r matches Some(p) ==> split_first(s@, c) == Some((p.0@, p.1@)),
        r is None ==> split_first(s@, c) is None,
{
    let v = chars_of(s);
    let n = v.len();
    let pat: Vec<char> = vec![c];
    assert(pat@ =~= seq![c]);
    match find_from(&v, &pat, 0) {
        Some(i) => {
            proof {
                lemma_first_occurrence(v@, seq![c], i as int);
            }
            let a = chars_between(&v, 0, i);
            let b = chars_between(&v, i + 1, n);
            assert(a@ =~= v@.take(i as int));
            assert(b@ =~= v@.skip(i + 1));
            Some((string_of(a.as_slice()), string_of(b.as_slice())))
        },
        None => {
            proof {
                lemma_no_occurrence(v@, seq![c]);
            }
            None
        },
    }
}

/// The part of `s` after its last `c`.
pub fn after_last_char(s: &str, c: char) -> (r: String)
    ensures
        r@ == after_last(s@, c),
{
    let v = chars_of(s);
    let mut k = v.len();
    assert(v@.take(k as int) =~= v@);
    assert(v@.subrange(k as int, v@.len() as int) =~= Seq::<char>::empty());
    while k > 0 && v[k - 1] != c
        invariant
            k <= v@.len(),
            after_last(v@, c) == after_last(v@.take(k as int), c) + v@.subrange(k as int, v@.len() as int),
        decreases k,
    {
        assert(v@.take(k as int).drop_last() =~= v@.take(k - 1));
        assert(v@.subrange(k - 1, v@.len() as int) =~= seq![v@[k - 1]] + v@.subrange(k as int, v@.len() as int));
        assert(after_last(v@.take(k as int), c) == after_last(v@.take(k - 1), c).push(v@[k - 1]));
        assert(after_last(v@.take(k - 1), c).push(v@[k - 1]) + v@.subrange(k as int, v@.len() as int)
            =~= after_last(v@.take(k - 1), c) + v@.subrange(k - 1, v@.len() as int));
        k -= 1;
    }
    if k > 0 {
        assert(after_last(v@.take(k as int), c) =~= Seq::<char>::empty());
    } else {
        assert(after_last(v@.take(0), c) =~= Seq::<char>::empty());
    }
    let part = chars_between(&v, k, v.len());
    string_of(part.as_slice())
}

/// The name of an endpoint type in the URL.
pub open spec fn endpoint_label(t: EndpointType) -> Seq<char> {
    match t {
        EndpointType::Local => "local"@,
        EndpointType::Agent => "agent"@,
        EndpointType::S3 => "s3"@,
    }
}

/// The name of an endpoint type in the URL.
pub fn endpoint_label_of(t: EndpointType) -> (r: String)
    ensures
        r@ == endpoint_label(t),
{
    match t {
        EndpointType::Local => String::from_str("local"),
        EndpointType::Agent => String::from_str("agent"),
        EndpointType::S3 => String::from_str("s3"),
    }
}

/// The parts of the URL that names `u`, before the URL library writes it:
/// user name, password, host, port, path and `entry` value.
pub struct UrlComponents {
    pub username: String,
    pub password: Option<String>,
    pub host: String,
    pub port: Option<u16>,
    pub path: String,
    pub entry: Option<String>,
}

/// The path of `u` with a leading `/`.
pub open spec fn rooted(p: Seq<char>) -> Seq<char> {
    if seq_starts_with(p, seq!['/']) { p } else { seq!['/'] + p }
}

/// The user name of the URL: for object storage the profile (the part of
/// the id before `:`, or all of it); otherwise the id's part before `:`, or
/// all of it, except for an empty id or the local machine's "localhost".
pub open spec fn url_username(u: FileUrl) -> Seq<char> {
    let id = u.endpoint_id@;
    if u.endpoint_type == EndpointType::S3 {
        match split_first(id, ':') {
            Some((profile, _)) => profile,
            None => id,
        }
    } else if id.len() > 0 && (u.endpoint_type != EndpointType::Local || id != "localhost"@) {
        match split_first(id, ':') {
            Some((user, _)) => user,
            None => id,
        }
    } else {
        Seq::empty()
    }
}

/// The password of the URL: the id's part after `:` outside object storage.
pub open spec fn url_password(u: FileUrl) -> Option<Seq<char>> {
    let id = u.endpoint_id@;
    if u.endpoint_type != EndpointType::S3 && id.len() > 0 && (u.endpoint_type != EndpointType::Local || id != "localhost"@) {
        match split_first(id, ':') {
            Some((_, pass)) => Some(pass),
            None => None,
        }
    } else {
        None
    }
}

/// The path of the URL: the file's path with a leading `/`, for object
/// storage behind the bucket (the id's part after `:`).
pub open spec fn url_path(u: FileUrl) -> Seq<char> {
    if u.endpoint_type == EndpointType::S3 {
        match split_first(u.endpoint_id@, ':') {
            Some((_, bucket)) => seq!['/'] + bucket + rooted(u.path@),
            None => rooted(u.path@),
        }
    } else {
        rooted(u.path@)
    }
}

/// The host of the URL: the endpoint type's name, followed by `.` and the
/// server (its part before `:`, where that is not empty) if there is one.
pub open spec fn url_host(u: FileUrl) -> Seq<char> {
    match u.server_addr {
        Some(addr) => match split_first(addr@, ':') {
            Some((h, _)) => if h.len() > 0 { endpoint_label(u.endpoint_type) + seq!['.'] + h } else { endpoint_label(u.endpoint_type) },
            None => endpoint_label(u.endpoint_type) + seq!['.'] + addr@,
        },
        None => endpoint_label(u.endpoint_type),
    }
}

/// The port of the URL: the server's part after `:`, where it is a port.
pub open spec fn url_port(u: FileUrl) -> Option<u16> {
    match u.server_addr {
        Some(addr) => match split_first(addr@, ':') {
            Some((_, p)) => match parse_uint_spec(p, 65535) {
                Some(n) => Some(n as u16),
                None => None,
            },
            None => None,
        },
        None => None,
    }
}

/// Whether `s` begins with `c`.
pub fn starts_with_char(s: &str, c: char) -> (r: bool)
    ensures
        r == seq_starts_with(s@, seq![c]),
{
    let v = chars_of(s);
    if v.len() == 0 {
        return false;
    }
    let r = v[0] == c;
    assert(r ==> v@.subrange(0, 1) =~= seq![c]);
    assert(!r ==> v@.subrange(0, 1)[0] != c);
    r
}

/// The literal `s` as a `String`.
fn owned(s: &str) -> (r: String)
    ensures
        r@ == s@,
{
    String::from_str(s)
}

/// `a` followed by `b`.
fn concat2(a: &str, b: &str) -> (r: String)
    ensures
        r@ == a@ + b@,
{
    let mut s = String::from_str(a);
    s.append(b);
    s
}

impl FileUrl {
    /// A file URL without server.
    pub fn new(
        endpoint_type: EndpointType,
        endpoint_id: String,
        target_type: TargetType,
        path: String,
        entry_path: Option<String>,
    ) -> (r: FileUrl)
        ensures
            r.server_addr is None,
            r.endpoint_type == endpoint_type,
            r.endpoint_id == endpoint_id,
            r.target_type == target_type,
            r.path == path,
            r.entry_path == entry_path,
    {
        FileUrl { server_addr: None, endpoint_type, endpoint_id, target_type, path, entry_path }
    }

    /// The same URL on server `addr`.
    pub fn with_server_addr(self, addr: String) -> (r: FileUrl)
        ensures
            r == (FileUrl { server_addr: Some(addr), ..self }),
    {
        let mut u = self;
        u.server_addr = Some(addr);
        u
    }

    /// Whether the URL names an entry inside an archive.
    pub fn is_archive_entry(&self) -> (r: bool)
        ensures
            r == (self.target_type == TargetType::Archive && self.entry_path is Some),
    {
        self.target_type == TargetType::Archive && self.entry_path.is_some()
    }

    /// The name to show: the last segment of the entry path, or of the path.
    pub fn display_name(&self) -> (r: String)
        ensures
            r@ == (match self.entry_path {
                Some(e) => after_last(e@, '/'),
                None => after_last(self.path@, '/'),
            }),
    {
        match &self.entry_path {
            Some(e) => after_last_char(e.as_str(), '/'),
            None => after_last_char(self.path.as_str(), '/'),
        }
    }

    /// The parts of the URL that names this file.
    pub fn url_components(&self) -> (r: UrlComponents)
        ensures
            r.username@ == url_username(*self),
            opt_view(r.password) == url_password(*self),
            r.host@ == url_host(*self),
            r.port == url_port(*self),
            r.path@ == url_path(*self),
            opt_view(r.entry) == opt_view(self.entry_path),
    {
        proof {
            reveal_strlit("/");
            reveal_strlit(".");
        }
        let id = self.endpoint_id.as_str();
        let starts_slash = starts_with_char(self.path.as_str(), '/');
        let base_path = if starts_slash { self.path.clone() } else { concat2("/", self.path.as_str()) };
        assert(base_path@ == rooted(self.path@));
        let localhost = owned("localhost");
        let is_localhost = self.endpoint_id == localhost;
        let (username, password, path) = if self.endpoint_type == EndpointType::S3 {
            match split_once_char(id, ':') {
                Some((profile, bucket)) => {
                    let mut p = concat2("/", bucket.as_str());
                    p.append(base_path.as_str());
                    (profile, None, p)
                },
                None => (self.endpoint_id.clone(), None, base_path),
            }
        } else if !id.is_empty() && (self.endpoint_type != EndpointType::Local || !is_localhost) {
            match split_once_char(id, ':') {
                Some((user, pass)) => (user, Some(pass), base_path),
                None => (self.endpoint_id.clone(), None, base_path),
            }
        } else {
            (String::new(), None, base_path)
        };
        let type_str = endpoint_label_of(self.endpoint_type);
        let (host, port) = match &self.server_addr {
            Some(addr) => match split_once_char(addr.as_str(), ':') {
                Some((h, p)) => {
                    let host = if !h.as_str().is_empty() {
                        let mut x = concat2(type_str.as_str(), ".");
                        x.append(h.as_str());
                        x
                    } else {
                        type_str
                    };
                    let port = match parse_uint(p.as_str(), 65535) {
                        Some(n) => Some(n as u16),
                        None => None,
                    };
                    (host, port)
                },
                None => {
                    let mut x = concat2(type_str.as_str(), ".");
                    x.append(addr.as_str());
                    (x, None)
                },
            },
            None => (type_str, None),
        };
        let entry = match &self.entry_path {
            Some(e) => Some(e.clone()),
            None => None,
        };
        UrlComponents { username, password, host, port, path, entry }
    }
}

/// The view of an optional text slice.
pub open spec fn opt_str(s: Option<&str>) -> Option<Seq<char>> {
    match s {
        Some(t) => Some(t@),
        None => None,
    }
}

/// What the `url` crate writes for a URL parsed from `base` with the user
/// name, password, host, port, path and query set in that order (`None`
/// where one of the steps is refused).
pub uninterp spec fn url_serialization(
    base: Seq<char>,
    username: Seq<char>,
    password: Option<Seq<char>>,
    host: Seq<char>,
    port: Option<u16>,
    path: Seq<char>,
    query: Option<Seq<char>>,
) -> Option<Seq<char>>;

/// `url::Url::parse(base)`, then `set_username`, `set_password`,
/// `set_host`, `set_port`, `set_path` and `set_query` with the given parts,
/// then the URL's text; `None` where the crate refuses a step. What the
/// crate writes is named, not stated.
#[verifier::external_body]
fn serialize_url(
    base: &str,
    username: &str,
    password: Option<&str>,
    host: &str,
    port: Option<u16>,
    path: &str,
    query: Option<&str>,
) -> (r: Option<String>)
    ensures
        opt_view(r) == url_serialization(base@, username@, opt_str(password), host@, port, path@, opt_str(query)),
{
    let mut url = url::Url::parse(base).ok()?;
    url.set_username(username).ok()?;
    url.set_password(password).ok()?;
    url.set_host(Some(host)).ok()?;
    url.set_port(port).ok()?;
    url.set_path(path);
    url.set_query(query);
    Some(url.to_string())
}

/// The `application/x-www-form-urlencoded` form of the single pair
/// `key=value`, as `url::form_urlencoded::Serializer` writes it.
pub uninterp spec fn form_pair_encoding(key: Seq<char>, value: Seq<char>) -> Seq<char>;

/// `form_urlencoded::Serializer::new(String::new()).append_pair(key, value).finish()`.
#[verifier::external_body]
fn form_encode_pair(key: &str, value: &str) -> (r: String)
    ensures
        r@ == form_pair_encoding(key@, value@),
{
    url::form_urlencoded::Serializer::new(String::new()).append_pair(key, value).finish()
}

/// The query of the URL of `u`: its entry as the pair `entry=<entry>`.
pub open spec fn url_query(u: FileUrl) -> Option<Seq<char>> {
    match u.entry_path {
        Some(e) => Some(form_pair_encoding("entry"@, e@)),
        None => None,
    }
}

/// The view of an optional `String` as an optional `&str`.
fn as_opt_str(s: &Option<String>) -> (r: Option<&str>)
    ensures
        opt_str(r) == opt_view(*s),
{
    match s {
        Some(t) => Some(t.as_str()),
        None => None,
    }
}

impl FileUrl {
    /// The text of the URL, as the `url` crate writes it from the parts of
    /// `url_components` (its entry as the query pair `entry=<entry>`);
    /// `None` where the crate refuses a part (such as a host it cannot
    /// hold).
    pub fn to_url_string(&self) -> (r: Option<String>)
        ensures
            opt_view(r) == url_serialization(
                "ls://placeholder"@,
                url_username(*self),
                url_password(*self),
                url_host(*self),
                url_port(*self),
                url_path(*self),
                url_query(*self),
            ),
    {
        let c = self.url_components();
        let query = match &c.entry {
            Some(e) => Some(form_encode_pair("entry", e.as_str())),
            None => None,
        };
        assert(opt_view(query) == url_query(*self));
        serialize_url(
            "ls://placeholder",
            c.username.as_str(),
            as_opt_str(&c.password),
            c.host.as_str(),
            c.port,
            c.path.as_str(),
            as_opt_str(&query),
        )
    }
}

/// What this crate reads of a URL that the `url` crate parsed.
pub struct UrlParts {
    pub scheme: String,
    pub username: String,
    pub password: Option<String>,
    pub host: Option<String>,
    pub port: Option<u16>,
    pub path: String,
    /// The decoded pairs of the query, in order.
    pub query_pairs: Vec<(String, String)>,
}

/// The parts of a parsed URL as the contracts see them.
pub struct UrlPartsView {
    pub scheme: Seq<char>,
    pub username: Seq<char>,
    pub password: Option<Seq<char>>,
    pub host: Option<Seq<char>>,
    pub port: Option<u16>,
    pub path: Seq<char>,
    pub query_pairs: Seq<(Seq<char>, Seq<char>)>,
}

impl View for UrlParts {
    type V = UrlPartsView;

    open spec fn view(&self) -> UrlPartsView {
        UrlPartsView {
            scheme: self.scheme@,
            username: self.username@,
            password: opt_view(self.password),
            host: opt_view(self.host),
            port: self.port,
            path: self.path@,
            query_pairs: self.query_pairs@.map_values(|p: (String, String)| (p.0@, p.1@)),
        }
    }
}

/// What the `url` crate reads of `s`: `None` where it refuses the text.
pub uninterp spec fn url_parse_result(s: Seq<char>) -> Option<UrlPartsView>;

/// `url::Url::parse(s)`, and of the URL its scheme, user name, password,
/// host text, port, path and decoded query pairs. What the crate reads is
/// named, not stated.
#[verifier::external_body]
fn parse_url(s: &str) -> (r: Result<UrlParts, url::ParseError>)
    ensures
        match r {
            Ok(p) => url_parse_result(s@) == Some(p@),
            Err(_) => url_parse_result(s@) is None,
        },
{
    let u = url::Url::parse(s)?;
    Ok(UrlParts {
        scheme: u.scheme().to_string(),
        username: u.username().to_string(),
        password: u.password().map(|p| p.to_string()),
        host: u.host_str().map(|h| h.to_string()),
        port: u.port(),
        path: u.path().to_string(),
        query_pairs: u.query_pairs().map(|(k, v)| (k.into_owned(), v.into_owned())).collect(),
    })
}

/// A file URL as the contracts see it.
pub struct FileUrlView {
    pub server_addr: Option<Seq<char>>,
    pub endpoint_type: EndpointType,
    pub endpoint_id: Seq<char>,
    pub target_type: TargetType,
    pub path: Seq<char>,
    pub entry_path: Option<Seq<char>>,
}

impl View for FileUrl {
    type V = FileUrlView;

    open spec fn view(&self) -> FileUrlView {
        FileUrlView {
            server_addr: opt_view(self.server_addr),
            endpoint_type: self.endpoint_type,
            endpoint_id: self.endpoint_id@,
            target_type: self.target_type,
            path: self.path@,
            entry_path: opt_view(self.entry_path),
        }
    }
}

/// The endpoint type named `t`.
pub open spec fn endpoint_of_label(t: Seq<char>) -> Option<EndpointType> {
    if t == "local"@ {
        Some(EndpointType::Local)
    } else if t == "agent"@ {
        Some(EndpointType::Agent)
    } else if t == "s3"@ {
        Some(EndpointType::S3)
    } else {
        None
    }
}

/// `s` without its leading `c`s.
pub open spec fn trim_start_char(s: Seq<char>, c: char) -> Seq<char>
    decreases s.len(),
{
    if s.len() > 0 && s[0] == c {
        trim_start_char(s.drop_first(), c)
    } else {
        s
    }
}

/// The value of the first query pair named `key`.
pub open spec fn first_pair_value(pairs: Seq<(Seq<char>, Seq<char>)>, key: Seq<char>) -> Option<Seq<char>>
    decreases pairs.len(),
{
    if pairs.len() == 0 {
        None
    } else if pairs[0].0 == key {
        Some(pairs[0].1)
    } else {
        first_pair_value(pairs.drop_first(), key)
    }
}

/// The host of a parsed URL split into the endpoint type's name and the
/// server (the part after the first `.`).
pub open spec fn host_split(host: Seq<char>) -> (Seq<char>, Option<Seq<char>>) {
    match split_first(host, '.') {
        Some((t, a)) => (t, Some(a)),
        None => (host, None),
    }
}

/// The server of a parsed URL: the host's part after its first `.`, with
/// `:` and the port after it where the URL has a port.
pub open spec fn server_of(pv: UrlPartsView) -> Option<Seq<char>> {
    let addr = host_split(pv.host.unwrap()).1;
    match pv.port {
        Some(p) => match addr {
            Some(a) => Some(a + ":"@ + decimal_digits(p as nat)),
            None => Some(":"@ + decimal_digits(p as nat)),
        },
        None => addr,
    }
}

/// The endpoint id of a parsed URL before the bucket is added: the user
/// name, with `:` and the password where there is one; "localhost" for an
/// empty id of the local machine.
pub open spec fn base_id(pv: UrlPartsView, t: EndpointType) -> Seq<char> {
    let id = match pv.password {
        Some(pw) => pv.username + ":"@ + pw,
        None => pv.username,
    };
    if t == EndpointType::Local && id.len() == 0 { "localhost"@ } else { id }
}

/// The file URL that a parsed URL reads as, where the scheme is `ls`, the
/// URL has a host and the host names an endpoint type: for object storage
/// the first path segment is the bucket, appended to the id after `:`.
pub open spec fn file_url_of(pv: UrlPartsView, t: EndpointType) -> FileUrlView {
    let id = base_id(pv, t);
    let path0 = trim_start_char(pv.path, '/');
    let (id2, path) = if t == EndpointType::S3 {
        match split_first(path0, '/') {
            Some((bucket, rest)) => (id + ":"@ + bucket, rest),
            None => if path0.len() > 0 { (id + ":"@ + path0, Seq::<char>::empty()) } else { (id, path0) },
        }
    } else {
        (id, path0)
    };
    let entry = first_pair_value(pv.query_pairs, "entry"@);
    FileUrlView {
        server_addr: server_of(pv),
        endpoint_type: t,
        endpoint_id: id2,
        target_type: if entry is Some { TargetType::Archive } else { TargetType::Dir },
        path,
        entry_path: entry,
    }
}

/// `trim_start_char(s, c)` is `s` after its leading `c`s: a suffix of `s`
/// that does not begin with `c`, all before which are `c`s.
proof fn lemma_trim_start_char(s: Seq<char>, c: char)
    ensures
        exists|k: int| 0 <= k <= s.len() && s.skip(k) == trim_start_char(s, c)
            && forall|j: int| 0 <= j < k ==> s[j] == c,
        !(trim_start_char(s, c).len() > 0 && trim_start_char(s, c)[0] == c),
    decreases s.len(),
{
    if s.len() > 0 && s[0] == c {
        lemma_trim_start_char(s.drop_first(), c);
        let k = choose|k: int| 0 <= k <= s.drop_first().len() && s.drop_first().skip(k) == trim_start_char(s.drop_first(), c)
            && forall|j: int| 0 <= j < k ==> s.drop_first()[j] == c;
        assert(s.skip(k + 1) =~= s.drop_first().skip(k));
        assert forall|j: int| 0 <= j < k + 1 implies s[j] == c by {
            if j > 0 {
                assert(s[j] == s.drop_first()[j - 1]);
            }
        }
    } else {
        assert(s.skip(0) =~= s);
    }
}

/// An object storage URL names its bucket in the first segment of its
/// path: the bucket (which holds no `/`) joins the endpoint id after `:`,
/// and the bucket, a `/` and the file URL's path make up the URL's path
/// (after its leading `/`s); a path of one segment is the bucket alone,
/// with an empty file path.
pub proof fn lemma_s3_bucket_split(pv: UrlPartsView)
    ensures
        ({
            let u = file_url_of(pv, EndpointType::S3);
            let path0 = trim_start_char(pv.path, '/');
            &&& exists|k: int| 0 <= k <= pv.path.len() && pv.path.skip(k) == path0
                && forall|j: int| 0 <= j < k ==> pv.path[j] == '/'
            &&& !(path0.len() > 0 && path0[0] == '/')
            &&& path0.len() > 0 ==> exists|bucket: Seq<char>| !bucket.contains('/')
                && u.endpoint_id == base_id(pv, EndpointType::S3) + ":"@ + bucket
                && (bucket + seq!['/'] + u.path == path0 || (u.path.len() == 0 && bucket == path0))
            &&& path0.len() == 0 ==> u.endpoint_id == base_id(pv, EndpointType::S3) && u.path.len() == 0
        }),
{
    let path0 = trim_start_char(pv.path, '/');
    lemma_trim_start_char(pv.path, '/');
    lemma_first_occurrence_spec(path0, seq!['/']);
    let u = file_url_of(pv, EndpointType::S3);
    match first_occurrence(path0, seq!['/']) {
        Some(i) => {
            let bucket = path0.take(i);
            assert(path0.subrange(i, i + 1) == seq!['/']);
            assert(path0[i] == path0.subrange(i, i + 1)[0]);
            assert(path0[i] == '/');
            assert(!bucket.contains('/')) by {
                if bucket.contains('/') {
                    let j = choose|j: int| 0 <= j < bucket.len() && bucket[j] == '/';
                    assert(path0.subrange(j, j + 1) =~= seq!['/']);
                    assert(occurs_at(path0, seq!['/'], j));
                }
            }
            assert(bucket + seq!['/'] + path0.skip(i + 1) =~= path0);
            assert(u.endpoint_id == base_id(pv, EndpointType::S3) + ":"@ + bucket);
            assert(u.path == path0.skip(i + 1));
        },
        None => {
            assert(!path0.contains('/')) by {
                if path0.contains('/') {
                    let j = choose|j: int| 0 <= j < path0.len() && path0[j] == '/';
                    assert(path0.subrange(j, j + 1) =~= seq!['/']);
                    assert(occurs_at(path0, seq!['/'], j));
                }
            }
        },
    }
}

/// `s` without its leading `c`s.
fn trim_start_char_exec(s: &str, c: char) -> (r: String)
    ensures
        r@ == trim_start_char(s@, c),
{
    let v = chars_of(s);
    let mut a: usize = 0;
    assert(v@.skip(0) =~= v@);
    while a < v.len() && v[a] == c
        invariant
            a <= v@.len(),
            trim_start_char(v@, c) == trim_start_char(v@.skip(a as int), c),
        decreases v@.len() - a,
    {
        assert(v@.skip(a as int).drop_first() =~= v@.skip(a + 1));
        a += 1;
    }
    assert(v@.skip(a as int) =~= v@.subrange(a as int, v@.len() as int));
    let part = chars_between(&v, a, v.len());
    string_of(part.as_slice())
}

/// The value of the first pair named `key`.
fn first_pair_value_exec(pairs: &Vec<(String, String)>, key: &str) -> (r: Option<String>)
    ensures
        opt_view(r) == first_pair_value(pairs@.map_values(|p: (String, String)| (p.0@, p.1@)), key@),
{
    let ghost all = pairs@.map_values(|p: (String, String)| (p.0@, p.1@));
    let wanted = String::from_str(key);
    let mut i: usize = 0;
    assert(all.skip(0) =~= all);
    while i < pairs.len()
        invariant
            i <= pairs@.len(),
            all == pairs@.map_values(|p: (String, String)| (p.0@, p.1@)),
            wanted@ == key@,
            first_pair_value(all, key@) == first_pair_value(all.skip(i as int), key@),
        decreases pairs@.len() - i,
    {
        assert(all.skip(i as int).drop_first() =~= all.skip(i + 1));
        assert(all.skip(i as int)[0] == all[i as int]);
        if pairs[i].0 == wanted {
            return Some(pairs[i].1.clone());
        }
        i += 1;
    }
    None
}

impl FileUrl {
    /// The file URL that a parsed URL reads as (see `file_url_of`): a
    /// scheme other than `ls`, a missing host or an unknown endpoint type is
    /// refused, checked in that order.
    pub fn from_url_parts(p: UrlParts) -> (r: Result<FileUrl, FileUrlError>)
        ensures
            p@.scheme != "ls"@ ==> (r matches Err(FileUrlError::UnsupportedScheme(x)) && x@ == p@.scheme),
            p@.scheme == "ls"@ && p@.host is None ==> (r matches Err(FileUrlError::MissingField(x)) && x@ == "host"@),
            p@.scheme == "ls"@ && p@.host is Some && endpoint_of_label(host_split(p@.host.unwrap()).0) is None
                ==> (r matches Err(FileUrlError::InvalidEndpointType(x)) && x@ == host_split(p@.host.unwrap()).0),
            r is Ok <==> (p@.scheme == "ls"@ && p@.host is Some && endpoint_of_label(host_split(p@.host.unwrap()).0) is Some),
            r matches Ok(u) ==> u@ == file_url_of(p@, endpoint_of_label(host_split(p@.host.unwrap()).0).unwrap()),
    {
        proof {
            reveal_strlit(":");
        }
        let ls = owned("ls");
        if p.scheme != ls {
            return Err(FileUrlError::UnsupportedScheme(p.scheme));
        }
        let ghost pv = p@;
        let mut endpoint_id = p.username.clone();
        match &p.password {
            Some(pass) => {
                endpoint_id.append(":");
                endpoint_id.append(pass.as_str());
            },
            None => {},
        }
        let host = match &p.host {
            Some(h) => h,
            None => {
                return Err(FileUrlError::MissingField(owned("host")));
            },
        };
        let (type_str, mut server_addr) = match split_once_char(host.as_str(), '.') {
            Some((t, addr)) => (t, Some(addr)),
            None => (host.clone(), None),
        };
        match p.port {
            Some(port) => {
                let digits = decimal_string(port as u64);
                server_addr = match server_addr {
                    Some(a) => {
                        let mut x = a;
                        x.append(":");
                        x.append(digits.as_str());
                        Some(x)
                    },
                    None => Some(concat2(":", digits.as_str())),
                };
            },
            None => {},
        }
        assert(opt_view(server_addr) == server_of(pv));
        let local = owned("local");
        let agent = owned("agent");
        let s3 = owned("s3");
        let endpoint_type = if type_str == local {
            EndpointType::Local
        } else if type_str == agent {
            EndpointType::Agent
        } else if type_str == s3 {
            EndpointType::S3
        } else {
            return Err(FileUrlError::InvalidEndpointType(type_str));
        };
        if endpoint_type == EndpointType::Local && endpoint_id.as_str().is_empty() {
            endpoint_id = owned("localhost");
        }
        assert(endpoint_id@ == base_id(pv, endpoint_type));
        let mut path = trim_start_char_exec(p.path.as_str(), '/');
        if endpoint_type == EndpointType::S3 {
            match split_once_char(path.as_str(), '/') {
                Some((bucket, rest)) => {
                    endpoint_id.append(":");
                    endpoint_id.append(bucket.as_str());
                    path = rest;
                },
                None => {
                    if !path.as_str().is_empty() {
                        endpoint_id.append(":");
                        endpoint_id.append(path.as_str());
                        path = String::new();
                    }
                },
            }
        }
        let entry_path = first_pair_value_exec(&p.query_pairs, "entry");
        let target_type = if entry_path.is_some() { TargetType::Archive } else { TargetType::Dir };
        let u = FileUrl { server_addr, endpoint_type, endpoint_id, target_type, path, entry_path };
        assert(u@ == file_url_of(pv, endpoint_type));
        Ok(u)
    }

    /// Reads a file URL from its text: the `url` crate parses it (its error
    /// is kept), then `from_url_parts` reads the parts: a scheme other than
    /// `ls`, a missing host or an unknown endpoint type is refused, checked
    /// in that order.
    pub fn from_str(s: &str) -> (r: Result<FileUrl, FileUrlError>)
        ensures
            url_parse_result(s@) is None ==> (r matches Err(FileUrlError::ParseError(_))),
            url_parse_result(s@) matches Some(pv) ==> (r is Ok <==> (pv.scheme == "ls"@ && pv.host is Some
                && endpoint_of_label(host_split(pv.host.unwrap()).0) is Some)),
            url_parse_result(s@) matches Some(pv) ==> (pv.scheme != "ls"@
                ==> (r matches Err(FileUrlError::UnsupportedScheme(x)) && x@ == pv.scheme)),
            url_parse_result(s@) matches Some(pv) ==> (pv.scheme == "ls"@ && pv.host is None
                ==> (r matches Err(FileUrlError::MissingField(x)) && x@ == "host"@)),
            url_parse_result(s@) matches Some(pv) ==> (pv.scheme == "ls"@ && pv.host is Some
                && endpoint_of_label(host_split(pv.host.unwrap()).0) is None
                ==> (r matches Err(FileUrlError::InvalidEndpointType(x)) && x@ == host_split(pv.host.unwrap()).0)),
            r matches Ok(u) ==> (url_parse_result(s@) matches Some(pv)
                && u@ == file_url_of(pv, endpoint_of_label(host_split(pv.host.unwrap()).0).unwrap())),
    {
        match parse_url(s) {
            Ok(p) => FileUrl::from_url_parts(p),
            Err(e) => Err(FileUrlError::ParseError(e)),
        }
    }
}

/// `rel` joined to `root`: an empty `rel` gives `root`, a `rel` that
/// starts with `/` is taken as it is, otherwise they are joined by one `/`.
pub open spec fn join_root(root: Seq<char>, rel: Seq<char>) -> Seq<char> {
    if rel.len() == 0 {
        root
    } else if seq_starts_with(rel, seq!['/']) {
        rel
    } else if root.len() > 0 && root.last() == '/' {
        root + rel
    } else {
        root + seq!['/'] + rel
    }
}

/// Joins `rel` to `root` (see `join_root`).
pub fn join_root_path(root: &str, rel: &str) -> (r: String)
    ensures
        r@ == join_root(root@, rel@),
{
    proof {
        reveal_strlit("/");
    }
    if rel.is_empty() {
        return owned(root);
    }
    if starts_with_char(rel, '/') {
        return owned(rel);
    }
    let v = chars_of(root);
    if v.len() > 0 && v[v.len() - 1] == '/' {
        concat2(root, rel)
    } else {
        let mut s = concat2(root, "/");
        s.append(rel);
        s
    }
}

/// `s` without its leading `./` and `/` pieces.
pub open spec fn normalize_segment(s: Seq<char>) -> Seq<char>
    decreases s.len(),
{
    if seq_starts_with(s, seq!['.', '/']) {
        normalize_segment(s.skip(2))
    } else if seq_starts_with(s, seq!['/']) {
        normalize_segment(s.skip(1))
    } else {
        s
    }
}

/// Drops the leading `./` and `/` pieces of `s`.
pub fn normalize_path_segment(s: &str) -> (r: String)
    ensures
        r@ == normalize_segment(s@),
{
    let v = chars_of(s);
    let n = v.len();
    let mut a: usize = 0;
    assert(v@.skip(0) =~= v@);
    loop
        invariant
            a <= v@.len(),
            n == v@.len(),
            normalize_segment(v@) == normalize_segment(v@.skip(a as int)),
        ensures
            a <= v@.len(),
            normalize_segment(v@) == v@.skip(a as int),
        decreases v@.len() - a,
    {
        let ghost rest = v@.skip(a as int);
        if a < n && v[a] == '.' && a + 1 < n && v[a + 1] == '/' {
            assert(rest.subrange(0, 2) =~= seq!['.', '/']);
            assert(rest.skip(2) =~= v@.skip(a + 2));
            a = a + 2;
        } else if a < n && v[a] == '/' {
            assert(!seq_starts_with(rest, seq!['.', '/'])) by {
                if seq_starts_with(rest, seq!['.', '/']) {
                    assert(rest.subrange(0, 2)[0] == '.' && rest.subrange(0, 2)[1] == '/');
                }
            }
            assert(rest.subrange(0, 1) =~= seq!['/']);
            assert(rest.skip(1) =~= v@.skip(a + 1));
            a = a + 1;
        } else {
            assert(!seq_starts_with(rest, seq!['.', '/'])) by {
                if seq_starts_with(rest, seq!['.', '/']) {
                    assert(rest.subrange(0, 2)[0] == '.' && rest.subrange(0, 2)[1] == '/');
                }
            }
            assert(!seq_starts_with(rest, seq!['/'])) by {
                if seq_starts_with(rest, seq!['/']) {
                    assert(rest.subrange(0, 1)[0] == '/');
                }
            }
            break;
        }
    }
    assert(v@.skip(a as int) =~= v@.subrange(a as int, v@.len() as int));
    let part = chars_between(&v, a, v.len());
    string_of(part.as_slice())
}

/// The endpoint type, id and base path of a source's endpoint.
pub open spec fn endpoint_parts(e: Endpoint) -> (EndpointType, Seq<char>, Seq<char>) {
    match e {
        Endpoint::Local { root } => (EndpointType::Local, "localhost"@, root@),
        Endpoint::Agent { agent_id, subpath } => (EndpointType::Agent, agent_id@, subpath@),
        Endpoint::S3 { profile, bucket } => (EndpointType::S3, profile@ + ":"@ + bucket@, Seq::empty()),
    }
}

/// The file URL of a file found at `rel` in `source`, on server `server`
/// if one is set: inside a directory target, the directory's path (its own
/// base for `.`) then `rel`; inside a file list, `rel` under the base;
/// inside an archive, the archive (the given override where the endpoint is
/// not object storage, the object key for object storage, the path under
/// the base otherwise) with `rel` as the entry. Local and agent paths and
/// every entry lose their leading `./` and `/` pieces.
pub open spec fn result_url(source: Source, rel: Seq<char>, archive_override: Option<Seq<char>>, server: Option<Seq<char>>) -> FileUrlView {
    let (t, id, base) = endpoint_parts(source.endpoint);
    let local_like = t == EndpointType::Local || t == EndpointType::Agent;
    let (target_type, path, entry) = match source.target {
        Target::Dir { path, .. } => {
            let full = if path@ == "."@ { base } else { join_root(base, path@) };
            let p = join_root(full, rel);
            (TargetType::Dir, if local_like { normalize_segment(p) } else { p }, None)
        },
        Target::Files { .. } => {
            let p = join_root(base, rel);
            (TargetType::Dir, if local_like { normalize_segment(p) } else { p }, None)
        },
        Target::Archive { path, .. } => {
            let a = match archive_override {
                Some(o) => if t != EndpointType::S3 { o } else { path@ },
                None => if t == EndpointType::S3 { path@ } else { join_root(base, path@) },
            };
            (TargetType::Archive, if local_like { normalize_segment(a) } else { a }, Some(normalize_segment(rel)))
        },
    };
    FileUrlView { server_addr: server, endpoint_type: t, endpoint_id: id, target_type, path, entry_path: entry }
}

/// Dropping leading `./` and `/` pieces keeps a tail that begins with
/// neither.
proof fn lemma_normalize_keeps_tail(x: Seq<char>, y: Seq<char>)
    requires
        y.len() > 0,
        y[0] != '/',
        !seq_starts_with(y, seq!['.', '/']),
        seq_ends_with(x, y),
    ensures
        seq_ends_with(normalize_segment(x), y),
    decreases x.len(),
{
    let off = x.len() - y.len();
    assert forall|j: int| 0 <= j < y.len() implies #[trigger] x[off + j] == y[j] by {
        assert(x.subrange(off, x.len() as int)[j] == x[off + j]);
    }
    if seq_starts_with(x, seq!['.', '/']) {
        assert(x[0] == '.' && x[1] == '/') by {
            assert(x.subrange(0, 2)[0] == x[0]);
            assert(x.subrange(0, 2)[1] == x[1]);
        }
        if off == 0 {
            assert(y.subrange(0, 2) =~= seq!['.', '/']);
        } else if off == 1 {
            assert(y[0] == x[1]);
        } else {
            let z = x.skip(2);
            assert(z.subrange(z.len() - y.len(), z.len() as int) =~= y) by {
                assert forall|j: int| 0 <= j < y.len() implies z.subrange(z.len() - y.len(), z.len() as int)[j] == y[j] by {
                    assert(z[off - 2 + j] == x[off + j]);
                }
            }
            lemma_normalize_keeps_tail(z, y);
        }
    } else if seq_starts_with(x, seq!['/']) {
        assert(x[0] == '/') by {
            assert(x.subrange(0, 1)[0] == x[0]);
        }
        if off == 0 {
            assert(y[0] == x[0]);
        } else {
            let z = x.skip(1);
            assert(z.subrange(z.len() - y.len(), z.len() as int) =~= y) by {
                assert forall|j: int| 0 <= j < y.len() implies z.subrange(z.len() - y.len(), z.len() as int)[j] == y[j] by {
                    assert(z[off - 1 + j] == x[off + j]);
                }
            }
            lemma_normalize_keeps_tail(z, y);
        }
    }
}

/// Joining a directory `p` to a base and then a relative path `rel` gives
/// a path that ends with `p`, a `/` and `rel` (for `p` and `rel` as in
/// `lemma_dir_url_keeps_target`).
proof fn lemma_join_keeps_dir(base: Seq<char>, p: Seq<char>, rel: Seq<char>)
    requires
        p.len() > 0,
        p[0] != '/',
        p.last() != '/',
        rel.len() > 0,
        rel[0] != '/',
    ensures
        seq_ends_with(join_root(join_root(base, p), rel), p + seq!['/'] + rel),
{
    let y = p + seq!['/'] + rel;
    assert(!seq_starts_with(p, seq!['/'])) by {
        if seq_starts_with(p, seq!['/']) {
            assert(p.subrange(0, 1)[0] == p[0]);
        }
    }
    let full = join_root(base, p);
    let pre = if base.len() > 0 && base.last() == '/' { base } else { base + seq!['/'] };
    assert(full =~= pre + p);
    assert(full.len() > 0 && full.last() == p.last());
    assert(!seq_starts_with(rel, seq!['/'])) by {
        if seq_starts_with(rel, seq!['/']) {
            assert(rel.subrange(0, 1)[0] == rel[0]);
        }
    }
    let joined = join_root(full, rel);
    assert(joined =~= pre + y);
    assert(joined.subrange(pre.len() as int, joined.len() as int) =~= y);
}

/// The file URL of a result found under a directory target names the
/// target's directory: where the target's path `p` is not `.`, does not
/// begin with `/` or `./` nor end with `/`, and the relative path `rel` is
/// not empty and does not begin with `/`, the URL's path ends with `p`,
/// a `/` and `rel`.
pub proof fn lemma_dir_url_keeps_target(source: Source, rel: Seq<char>, archive_override: Option<Seq<char>>, server: Option<Seq<char>>)
    requires
        source.target matches Target::Dir { path, .. } && ({
            let p = path@;
            &&& p.len() > 0
            &&& p != "."@
            &&& p[0] != '/'
            &&& !seq_starts_with(p, seq!['.', '/'])
            &&& p.last() != '/'
        }),
        rel.len() > 0,
        rel[0] != '/',
    ensures
        source.target matches Target::Dir { path, .. }
            && seq_ends_with(result_url(source, rel, archive_override, server).path, path@ + seq!['/'] + rel),
{
    if let Target::Dir { path, .. } = source.target {
        let p = path@;
        let (t, id, base) = endpoint_parts(source.endpoint);
        let y = p + seq!['/'] + rel;
        lemma_join_keeps_dir(base, p, rel);
        let joined = join_root(join_root(base, p), rel);
        let local_like = t == EndpointType::Local || t == EndpointType::Agent;
        assert(result_url(source, rel, archive_override, server).path
            == (if local_like { normalize_segment(joined) } else { joined }));
        if local_like {
            assert(y[0] == p[0]);
            assert(!seq_starts_with(y, seq!['.', '/'])) by {
                if seq_starts_with(y, seq!['.', '/']) {
                    assert(y.subrange(0, 2)[0] == y[0]);
                    assert(y.subrange(0, 2)[1] == y[1]);
                    if p.len() == 1 {
                        assert(p =~= "."@) by { reveal_strlit("."); }
                    } else {
                        assert(y[1] == p[1]);
                        assert(p.subrange(0, 2) =~= seq!['.', '/']);
                    }
                }
            }
            lemma_normalize_keeps_tail(joined, y);
        }
    }
}

/// The text that `to_url_string` gives for `f`: the `url` crate's
/// serialization of its parts, `None` where the crate refuses one.
pub open spec fn url_text(f: FileUrl) -> Option<Seq<char>> {
    url_serialization(
        "ls://placeholder"@,
        url_username(f),
        url_password(f),
        url_host(f),
        url_port(f),
        url_path(f),
        url_query(f),
    )
}

/// `r` is what the URL builders give for the file URL `u`: the URL and its
/// own text, or `None` where that text cannot be written.
pub open spec fn built_url(r: Option<(FileUrl, String)>, u: FileUrlView) -> bool {
    &&& r matches Some(p) ==> p.0@ == u && url_text(p.0) == Some(p.1@)
    &&& r is None ==> exists|f: FileUrl| f@ == u && url_text(f) is None
}

/// The text of a file URL depends on its view alone.
pub proof fn lemma_url_text_of_view(f: FileUrl, g: FileUrl)
    requires
        f@ == g@,
    ensures
        url_text(f) == url_text(g),
{
    assert(f.endpoint_id@ == g.endpoint_id@);
    assert(f.path@ == g.path@);
    match (f.server_addr, g.server_addr) {
        (Some(a), Some(b)) => assert(a@ == b@),
        _ => {},
    }
    match (f.entry_path, g.entry_path) {
        (Some(a), Some(b)) => assert(a@ == b@),
        _ => {},
    }
    assert(url_username(f) == url_username(g));
    assert(url_password(f) == url_password(g));
    assert(url_host(f) == url_host(g));
    assert(url_port(f) == url_port(g));
    assert(url_path(f) == url_path(g));
    assert(url_query(f) == url_query(g));
}

/// Two builder results for the same file URL are the same pair: both
/// `None`, or the same URL with the same text. So the builders with a
/// source type, without one, and with no archive override, which all
/// build the URL `result_url(source, rel, None, server)`, agree.
pub proof fn lemma_built_url_unique(u: FileUrlView, r1: Option<(FileUrl, String)>, r2: Option<(FileUrl, String)>)
    requires
        built_url(r1, u),
        built_url(r2, u),
    ensures
        r1 is Some <==> r2 is Some,
        r1 matches Some(p) ==> (r2 matches Some(q) && p.0@ == q.0@ && p.1@ == q.1@),
{
    match (r1, r2) {
        (Some(p), Some(q)) => {
            lemma_url_text_of_view(p.0, q.0);
        },
        (Some(p), None) => {
            let f = choose|f: FileUrl| f@ == u && url_text(f) is None;
            lemma_url_text_of_view(p.0, f);
        },
        (None, Some(q)) => {
            let f = choose|f: FileUrl| f@ == u && url_text(f) is None;
            lemma_url_text_of_view(q.0, f);
        },
        _ => {},
    }
}

/// The file URL of a file found at `rel` in `source` (see `result_url`),
/// with an optional archive path that overrides the archive target's, on
/// server `server_id` if one is set, together with its text; `None` where
/// the URL cannot be written (see `FileUrl::to_url_string`).
pub fn build_file_url_for_result_with_source_type_and_archive_path(
    source: &Source,
    rel_path: &str,
    source_type: EntrySourceType,
    archive_path_override: Option<&str>,
    server_id: Option<&str>,
) -> (r: Option<(FileUrl, String)>)
    ensures
        built_url(r, result_url(*source, rel_path@, opt_str(archive_path_override), opt_str(server_id))),
{
    proof {
        reveal_strlit(":");
        reveal_strlit(".");
    }
    let (endpoint_type, endpoint_id, base_path) = match &source.endpoint {
        Endpoint::Local { root } => (EndpointType::Local, owned("localhost"), root.clone()),
        Endpoint::Agent { agent_id, subpath } => (EndpointType::Agent, agent_id.clone(), subpath.clone()),
        Endpoint::S3 { profile, bucket } => {
            let mut id = concat2(profile.as_str(), ":");
            id.append(bucket.as_str());
            (EndpointType::S3, id, String::new())
        },
    };
    let local_like = endpoint_type == EndpointType::Local || endpoint_type == EndpointType::Agent;
    let url = match &source.target {
        Target::Dir { path, .. } => {
            let dot = owned(".");
            let full = if *path == dot { base_path } else { join_root_path(base_path.as_str(), path.as_str()) };
            let joined = join_root_path(full.as_str(), rel_path);
            let final_path = if local_like { normalize_path_segment(joined.as_str()) } else { joined };
            FileUrl::new(endpoint_type, endpoint_id, TargetType::Dir, final_path, None)
        },
        Target::Files { .. } => {
            let joined = join_root_path(base_path.as_str(), rel_path);
            let final_path = if local_like { normalize_path_segment(joined.as_str()) } else { joined };
            FileUrl::new(endpoint_type, endpoint_id, TargetType::Dir, final_path, None)
        },
        Target::Archive { path, .. } => {
            let archive_path = match archive_path_override {
                Some(o) => if endpoint_type != EndpointType::S3 { owned(o) } else { path.clone() },
                None => if endpoint_type == EndpointType::S3 {
                    path.clone()
                } else {
                    join_root_path(base_path.as_str(), path.as_str())
                },
            };
            let archive_path = if local_like { normalize_path_segment(archive_path.as_str()) } else { archive_path };
            FileUrl::new(endpoint_type, endpoint_id, TargetType::Archive, archive_path, Some(normalize_path_segment(rel_path)))
        },
    };
    let url = match server_id {
        Some(sid) => url.with_server_addr(owned(sid)),
        None => url,
    };
    assert(url@ == result_url(*source, rel_path@, opt_str(archive_path_override), opt_str(server_id)));
    match url.to_url_string() {
        Some(text) => Some((url, text)),
        None => None,
    }
}

/// `build_file_url_for_result_with_source_type_and_archive_path` without override.
pub fn build_file_url_for_result_with_source_type(
    source: &Source,
    rel_path: &str,
    source_type: EntrySourceType,
    server_id: Option<&str>,
) -> (r: Option<(FileUrl, String)>)
    ensures
        built_url(r, result_url(*source, rel_path@, None, opt_str(server_id))),
{
    build_file_url_for_result_with_source_type_and_archive_path(source, rel_path, source_type, None, server_id)
}

/// `build_file_url_for_result_with_source_type_and_archive_path` for a plain file.
pub fn build_file_url_for_result(source: &Source, rel_path: &str, server_id: Option<&str>) -> (r: Option<(FileUrl, String)>)
    ensures
        built_url(r, result_url(*source, rel_path@, None, opt_str(server_id))),
{
    build_file_url_for_result_with_source_type_and_archive_path(source, rel_path, EntrySourceType::File, None, server_id)
}

/// `build_file_url_for_result_with_source_type_and_archive_path` for a plain file, with an override.
pub fn build_file_url_for_result_with_archive_path(
    source: &Source,
    rel_path: &str,
    archive_path_override: Option<&str>,
    server_id: Option<&str>,
) -> (r: Option<(FileUrl, String)>)
    ensures
        built_url(r, result_url(*source, rel_path@, opt_str(archive_path_override), opt_str(server_id))),
{
    build_file_url_for_result_with_source_type_and_archive_path(source, rel_path, EntrySourceType::File, archive_path_override, server_id)
}

} // verus!
