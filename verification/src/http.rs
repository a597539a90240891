//! HTTP response handling for the scripting language's standard
//! library.
//!
//! The response type and its header map are plain data that scripts
//! inspect; performing requests is I/O and lives outside this crate.
//! [`Headers`] keeps one value per name, the most recently inserted,
//! and its model is the map from names to values.

use vstd::prelude::*;
use crate::chars::str_eq;

verus! {

broadcast use vstd::std_specs::vec::group_vec_axioms;

/// Why an HTTP operation failed.
#[derive(Debug, Clone, PartialEq)]
pub enum HttpError {
    /// the request was sent and answered with a failure
    RequestFailed(String),
    /// the URL cannot be parsed
    InvalidUrl(String),
    /// a header name or value is malformed
    InvalidHeader(String),
    /// the response body cannot be read
    ParseError(String),
    /// the request timed out
    Timeout,
    /// the connection failed
    NetworkError(String),
}

/// The mathematical image of an [`HttpError`].
pub ghost enum HttpErrorModel {
    RequestFailed(Seq<char>),
    InvalidUrl(Seq<char>),
    InvalidHeader(Seq<char>),
    ParseError(Seq<char>),
    Timeout,
    NetworkError(Seq<char>),
}

impl View for HttpError {
    type V = HttpErrorModel;

    open spec fn view(&self) -> HttpErrorModel {
        match self {
            HttpError::RequestFailed(m) => HttpErrorModel::RequestFailed(m@),
            HttpError::InvalidUrl(u) => HttpErrorModel::InvalidUrl(u@),
            HttpError::InvalidHeader(h) => HttpErrorModel::InvalidHeader(h@),
            HttpError::ParseError(m) => HttpErrorModel::ParseError(m@),
            HttpError::Timeout => HttpErrorModel::Timeout,
            HttpError::NetworkError(m) => HttpErrorModel::NetworkError(m@),
        }
    }
}

impl HttpError {
    /// The message the error prints, its code first.
    pub fn message(&self) -> (r: String)
        ensures
            r@ == (match self@ {
                HttpErrorModel::RequestFailed(m) => "HTTP-001: Request failed: "@ + m,
                HttpErrorModel::InvalidUrl(u) => "HTTP-002: Invalid URL: "@ + u,
                HttpErrorModel::InvalidHeader(h) => "HTTP-003: Invalid header: "@ + h,
                HttpErrorModel::ParseError(m) => "HTTP-004: Parse error: "@ + m,
                HttpErrorModel::Timeout => "HTTP-005: Request timeout"@,
                HttpErrorModel::NetworkError(m) => "HTTP-006: Network error: "@ + m,
            }),
    {
        match self {
            HttpError::RequestFailed(m) => {
                let mut out = String::from_str("HTTP-001: Request failed: ");
                out.append(m.as_str());
                out
            },
            HttpError::InvalidUrl(u) => {
                let mut out = String::from_str("HTTP-002: Invalid URL: ");
                out.append(u.as_str());
                out
            },
            HttpError::InvalidHeader(h) => {
                let mut out = String::from_str("HTTP-003: Invalid header: ");
                out.append(h.as_str());
                out
            },
            HttpError::ParseError(m) => {
                let mut out = String::from_str("HTTP-004: Parse error: ");
                out.append(m.as_str());
                out
            },
            HttpError::Timeout => String::from_str("HTTP-005: Request timeout"),
            HttpError::NetworkError(m) => {
                let mut out = String::from_str("HTTP-006: Network error: ");
                out.append(m.as_str());
                out
            },
        }
    }
}

/// The map an entry sequence denotes: a later entry for the same name
/// wins.
pub open spec fn entries_map(s: Seq<(String, String)>) -> Map<Seq<char>, Seq<char>>
    decreases s.len(),
{
    if s.len() == 0 {
        Map::empty()
    } else {
        entries_map(s.drop_last()).insert(s.last().0@, s.last().1@)
    }
}

/// Entries past `i` that all miss `k` leave the map's view of `k`
/// unchanged.
proof fn lemma_entries_map_take(s: Seq<(String, String)>, k: Seq<char>, i: int)
    requires
        0 <= i <= s.len(),
        forall|t: int| i <= t < s.len() ==> #[trigger] s[t].0@ != k,
    ensures
        entries_map(s).contains_key(k) == entries_map(s.take(i)).contains_key(k),
        entries_map(s).contains_key(k) ==> entries_map(s)[k] == entries_map(s.take(i))[k],
    decreases s.len() - i,
{
    if i == s.len() {
        assert(s.take(i) =~= s);
    } else {
        assert(s.last().0@ != k);
        lemma_entries_map_take(s.drop_last(), k, i);
        assert(s.drop_last().take(i) =~= s.take(i));
    }
}

/// Response headers: one value per name, the most recently inserted.
#[derive(Debug, Clone)]
pub struct Headers {
    entries: Vec<(String, String)>,
}

impl View for Headers {
    type V = Map<Seq<char>, Seq<char>>;

    closed spec fn view(&self) -> Map<Seq<char>, Seq<char>> {
        entries_map(self.entries@)
    }
}

impl Headers {
    /// No headers.
    pub fn new() -> (r: Headers)
        ensures
            r@ == Map::<Seq<char>, Seq<char>>::empty(),
    {
        let h = Headers { entries: Vec::new() };
        proof {
            assert(h.entries@ =~= Seq::<(String, String)>::empty());
        }
        h
    }

    /// Set the value of a header, replacing an earlier one of the same
    /// name.
    pub fn insert(&mut self, name: String, value: String)
        ensures
            final(self)@ == old(self)@.insert(name@, value@),
    {
        let ghost old_entries = self.entries@;
        proof {
            assert(old_entries.push((name, value)).drop_last() =~= old_entries);
        }
        self.entries.push((name, value));
    }

    /// The entries in insertion order; the map they denote is the
    /// header map itself.
    pub fn entries(&self) -> (r: &Vec<(String, String)>)
        ensures
            entries_map(r@) == self@,
    {
        &self.entries
    }

    /// The value of the named header, when one is set.
    pub fn get(&self, name: &str) -> (r: Option<&String>)
        ensures
            ({
                match r {
                    Some(v) => self@.contains_key(name@) && v@ == self@[name@],
                    None => !self@.contains_key(name@),
                }
            }),
    {
        let n = self.entries.len();
        let mut i = n;
        while i > 0
            invariant
                i <= n,
                n == self.entries@.len(),
                forall|t: int| i <= t < n ==> #[trigger] self.entries@[t].0@ != name@,
            decreases i,
        {
            i -= 1;
            if str_eq(self.entries[i].0.as_str(), name) {
                proof {
                    lemma_entries_map_take(self.entries@, name@, i + 1);
                    assert(self.entries@.take(i + 1).drop_last() =~= self.entries@.take(i as int));
                    assert(self.entries@.take(i + 1).last() == self.entries@[i as int]);
                }
                return Some(&self.entries[i].1);
            }
        }
        proof {
            lemma_entries_map_take(self.entries@, name@, 0);
            assert(self.entries@.take(0) =~= Seq::<(String, String)>::empty());
        }
        None
    }
}

/// One HTTP response: status code, body text, and headers.
#[derive(Debug, Clone)]
pub struct HttpResponse {
    /// HTTP status code
    pub status: u16,
    /// response body as text
    pub body: String,
    /// response headers
    pub headers: Headers,
}

impl HttpResponse {
    /// Assemble a response from its parts.
    pub fn new(status: u16, body: String, headers: Headers) -> (r: HttpResponse)
        ensures
            r.status == status,
            r.body@ == body@,
            r.headers@ == headers@,
    {
        HttpResponse { status, body, headers }
    }

    /// Whether the status code announces success (2xx).
    pub fn is_success(&self) -> (r: bool)
        ensures
            r == (200 <= self.status < 300),
    {
        200 <= self.status && self.status < 300
    }

    /// The value of the named response header, when one is set.
    pub fn get_header(&self, name: &str) -> (r: Option<&String>)
        ensures
            ({
                match r {
                    Some(v) => self.headers@.contains_key(name@) && v@ == self.headers@[name@],
                    None => !self.headers@.contains_key(name@),
                }
            }),
    {
        self.headers.get(name)
    }
}

/// The headers a JSON request carries: the given ones, with
/// `Content-Type: application/json` set.
pub fn json_headers(headers: Option<Headers>) -> (r: Headers)
    ensures
        r@ == (match headers {
            Some(h) => h@,
            None => Map::<Seq<char>, Seq<char>>::empty(),
        }).insert("Content-Type"@, "application/json"@),
{
    let mut h = match headers {
        Some(h) => h,
        None => Headers::new(),
    };
    h.insert(
        String::from_str("Content-Type"),
        String::from_str("application/json"),
    );
    h
}

} // verus!
