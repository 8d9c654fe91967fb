//! The message model: methods, versions, statuses, header mappings, and the
//! request and response heads that the parser and the router exchange.

use vstd::prelude::*;

use crate::text::str_eq;

verus! {

/// An HTTP method. The set is closed: any other token is a parse error.
#[derive(Clone, Copy, PartialEq, Eq, Structural, Debug)]
pub enum Method {
    Get,
    Post,
}

/// The error for a method token outside the closed set.
#[derive(Clone, Copy, PartialEq, Eq, Structural, Debug)]
pub struct BadMethod;

/// The exact wire token of a method.
pub open spec fn method_token(m: Method) -> Seq<char> {
    match m {
        Method::Get => "GET"@,
        Method::Post => "POST"@,
    }
}

/// What parsing a method token yields: the matching variant on an exact
/// token, an error on everything else.
pub open spec fn spec_method_from(s: Seq<char>) -> Result<Method, BadMethod> {
    if s == method_token(Method::Get) {
        Ok(Method::Get)
    } else if s == method_token(Method::Post) {
        Ok(Method::Post)
    } else {
        Err(BadMethod)
    }
}

impl Method {
    /// The wire token of this method.
    pub fn as_str(self) -> (r: &'static str)
        ensures
            r@ == method_token(self),
    {
        match self {
            Method::Get => "GET",
            Method::Post => "POST",
        }
    }

    /// Parses a method token; exact match only.
    pub fn from_str(s: &str) -> (r: Result<Method, BadMethod>)
        ensures
            r == spec_method_from(s@),
    {
        if str_eq(s, "GET") {
            Ok(Method::Get)
        } else if str_eq(s, "POST") {
            Ok(Method::Post)
        } else {
            Err(BadMethod)
        }
    }
}

/// An HTTP version. The set is closed: any other token is a parse error.
#[derive(Clone, Copy, PartialEq, Eq, Structural, Debug)]
pub enum Version {
    Http10,
    Http11,
}

/// The error for a version token outside the closed set.
#[derive(Clone, Copy, PartialEq, Eq, Structural, Debug)]
pub struct BadVersion;

/// The exact wire token of a version.
pub open spec fn version_token(v: Version) -> Seq<char> {
    match v {
        Version::Http10 => "HTTP/1.0"@,
        Version::Http11 => "HTTP/1.1"@,
    }
}

/// What parsing a version token yields: the matching variant on an exact
/// token, an error on everything else.
pub open spec fn spec_version_from(s: Seq<char>) -> Result<Version, BadVersion> {
    if s == version_token(Version::Http10) {
        Ok(Version::Http10)
    } else if s == version_token(Version::Http11) {
        Ok(Version::Http11)
    } else {
        Err(BadVersion)
    }
}

impl Version {
    /// The wire token of this version.
    pub fn as_str(self) -> (r: &'static str)
        ensures
            r@ == version_token(self),
    {
        match self {
            Version::Http10 => "HTTP/1.0",
            Version::Http11 => "HTTP/1.1",
        }
    }

    /// Parses a version token; exact match only.
    pub fn from_str(s: &str) -> (r: Result<Version, BadVersion>)
        ensures
            r == spec_version_from(s@),
    {
        if str_eq(s, "HTTP/1.0") {
            Ok(Version::Http10)
        } else if str_eq(s, "HTTP/1.1") {
            Ok(Version::Http11)
        } else {
            Err(BadVersion)
        }
    }
}

/// A response status. Code and reason phrase are derived from the variant.
#[derive(Clone, Copy, PartialEq, Eq, Structural, Debug)]
pub enum Status {
    OK,
    NotFound,
    InternalServerError,
    NotImplemented,
}

/// The numeric code of a status.
pub open spec fn status_code(s: Status) -> u16 {
    match s {
        Status::OK => 200,
        Status::NotFound => 404,
        Status::InternalServerError => 500,
        Status::NotImplemented => 501,
    }
}

/// The numeric code of a status, in decimal digits.
pub open spec fn status_code_token(s: Status) -> Seq<char> {
    match s {
        Status::OK => "200"@,
        Status::NotFound => "404"@,
        Status::InternalServerError => "500"@,
        Status::NotImplemented => "501"@,
    }
}

/// The reason phrase of a status.
pub open spec fn status_reason(s: Status) -> Seq<char> {
    match s {
        Status::OK => "OK"@,
        Status::NotFound => "Not Found"@,
        Status::InternalServerError => "Internal Server Error"@,
        Status::NotImplemented => "Not Implemented"@,
    }
}

impl Status {
    /// The numeric code of this status.
    pub fn code(self) -> (r: u16)
        ensures
            r == status_code(self),
    {
        match self {
            Status::OK => 200,
            Status::NotFound => 404,
            Status::InternalServerError => 500,
            Status::NotImplemented => 501,
        }
    }

    /// The reason phrase of this status.
    pub fn reason(self) -> (r: &'static str)
        ensures
            r@ == status_reason(self),
    {
        match self {
            Status::OK => "OK",
            Status::NotFound => "Not Found",
            Status::InternalServerError => "Internal Server Error",
            Status::NotImplemented => "Not Implemented",
        }
    }

    /// The numeric code of this status, as decimal digits.
    pub fn as_str(self) -> (r: String)
        ensures
            r@ == status_code_token(self),
    {
        let t = match self {
            Status::OK => "200",
            Status::NotFound => "404",
            Status::InternalServerError => "500",
            Status::NotImplemented => "501",
        };
        t.to_owned()
    }
}

/// A single-valued header mapping. Repeated insertions of one name
/// overwrite: the last value wins.
pub struct HeaderMap {
    entries: Vec<(String, String)>,
}

/// The mapping that a sequence of insertions builds up, later entries
/// overwriting earlier ones of the same name.
pub open spec fn entries_map(s: Seq<(String, String)>) -> Map<Seq<char>, Seq<char>>
    decreases s.len(),
{
    if s.len() == 0 {
        Map::empty()
    } else {
        entries_map(s.drop_last()).insert(s.last().0@, s.last().1@)
    }
}

impl View for HeaderMap {
    type V = Map<Seq<char>, Seq<char>>;

    closed spec fn view(&self) -> Map<Seq<char>, Seq<char>> {
        entries_map(self.entries@)
    }
}

proof fn lemma_entries_map_found(s: Seq<(String, String)>, k: Seq<char>, j: int)
    requires
        0 <= j < s.len(),
        s[j].0@ == k,
        forall|l: int| j < l < s.len() ==> s[l].0@ != k,
    ensures
        entries_map(s).contains_key(k),
        entries_map(s)[k] == s[j].1@,
    decreases s.len(),
{
    if j == s.len() - 1 {
    } else {
        lemma_entries_map_found(s.drop_last(), k, j);
    }
}

proof fn lemma_entries_map_absent(s: Seq<(String, String)>, k: Seq<char>)
    requires
        forall|l: int| 0 <= l < s.len() ==> s[l].0@ != k,
    ensures
        !entries_map(s).contains_key(k),
    decreases s.len(),
{
    if s.len() > 0 {
        lemma_entries_map_absent(s.drop_last(), k);
    }
}

impl HeaderMap {
    /// An empty mapping.
    pub fn new() -> (r: HeaderMap)
        ensures
            r@ == Map::<Seq<char>, Seq<char>>::empty(),
    {
        HeaderMap { entries: Vec::new() }
    }

    /// Binds `name` to `value`, overwriting any earlier value of `name`.
    pub fn insert(&mut self, name: String, value: String)
        ensures
            final(self)@ == old(self)@.insert(name@, value@),
    {
        let ghost before = self.entries@;
        self.entries.push((name, value));
        proof {
            assert(self.entries@.drop_last() =~= before);
        }
    }

    /// Looks a name up; yields the value bound last, or nothing.
    pub fn get(&self, name: &str) -> (r: Option<&String>)
        ensures
            match r {
                Some(v) => self@.contains_key(name@) && v@ == self@[name@],
                None => !self@.contains_key(name@),
            },
    {
        let mut i: usize = self.entries.len();
        while i > 0
            invariant
                0 <= i <= self.entries.len(),
                forall|l: int| i <= l < self.entries@.len() ==> self.entries@[l].0@ != name@,
            decreases i,
        {
            i = i - 1;
            if str_eq(self.entries[i].0.as_str(), name) {
                proof {
                    lemma_entries_map_found(self.entries@, name@, i as int);
                }
                return Some(&self.entries[i].1);
            }
        }
        proof {
            lemma_entries_map_absent(self.entries@, name@);
        }
        None
    }
}

/// The request head as a mathematical value.
pub ghost struct ReqModel {
    pub method: Method,
    pub uri: Seq<char>,
    pub version: Version,
    pub headers: Map<Seq<char>, Seq<char>>,
}

/// A parsed request head: method, raw target, version and headers. A value
/// of this type only arises from a successful parse of a complete head.
pub struct RequestParts {
    pub method: Method,
    pub uri: String,
    pub version: Version,
    pub headers: HeaderMap,
}

impl View for RequestParts {
    type V = ReqModel;

    open spec fn view(&self) -> ReqModel {
        ReqModel {
            method: self.method,
            uri: self.uri@,
            version: self.version,
            headers: self.headers@,
        }
    }
}

/// A full request: a parsed head and the body bytes that followed it.
pub struct Request {
    pub head: RequestParts,
    pub body: BoxedBody,
}

/// A response body: a finite byte sequence handed to the transport to
/// write out verbatim.
pub struct BoxedBody {
    pub inner: Vec<u8>,
}

impl View for BoxedBody {
    type V = Seq<u8>;

    open spec fn view(&self) -> Seq<u8> {
        self.inner@
    }
}

impl BoxedBody {
    /// A body with no bytes.
    pub fn empty() -> (r: BoxedBody)
        ensures
            r@ == Seq::<u8>::empty(),
    {
        BoxedBody { inner: Vec::new() }
    }
}

/// A response head: status, version and headers.
pub struct ResponseParts {
    pub status: Status,
    pub version: Version,
    pub headers: HeaderMap,
}

impl ResponseParts {
    /// The version of this head.
    pub fn version(&self) -> (r: Version)
        ensures
            r == self.version,
    {
        self.version
    }

    /// The status of this head.
    pub fn status(&self) -> (r: Status)
        ensures
            r == self.status,
    {
        self.status
    }

    /// The headers of this head.
    pub fn headers(&self) -> (r: &HeaderMap)
        ensures
            r == &self.headers,
    {
        &self.headers
    }
}

/// The response as a mathematical value.
pub ghost struct RespModel {
    pub status: Status,
    pub version: Version,
    pub headers: Map<Seq<char>, Seq<char>>,
    pub body: Seq<u8>,
}

/// A full response: a head and a body.
pub struct Response {
    pub head: ResponseParts,
    pub body: BoxedBody,
}

impl View for Response {
    type V = RespModel;

    open spec fn view(&self) -> RespModel {
        RespModel {
            status: self.head.status,
            version: self.head.version,
            headers: self.head.headers@,
            body: self.body@,
        }
    }
}

impl Response {
    /// The version of this response.
    pub fn version(&self) -> (r: Version)
        ensures
            r == self@.version,
    {
        self.head.version
    }

    /// The status of this response.
    pub fn status(&self) -> (r: Status)
        ensures
            r == self@.status,
    {
        self.head.status
    }

    /// The headers of this response.
    pub fn headers(&self) -> (r: &HeaderMap)
        ensures
            r@ == self@.headers,
    {
        &self.head.headers
    }
}

/// The rendered status line of a response head, CRLF included.
pub open spec fn status_line_spec(v: Version, s: Status) -> Seq<char> {
    version_token(v) + " "@ + status_code_token(s) + " "@ + status_reason(s) + "\r\n"@
}

/// Renders the status line `<version> <code> <reason>` followed by CRLF.
pub fn status_line(v: Version, s: Status) -> (r: String)
    ensures
        r@ == status_line_spec(v, s),
{
    let mut out = v.as_str().to_owned();
    out.append(" ");
    let code = s.as_str();
    out.append(code.as_str());
    out.append(" ");
    out.append(s.reason());
    out.append("\r\n");
    proof {
        assert(out@ =~= status_line_spec(v, s));
    }
    out
}

} // verus!
