//! Responses to test requests, and a builder for test requests.
use crate::string_map::{inserted, lookup, Entries, StringMap};
use crate::text::utf8_decode;
use vstd::prelude::*;
use vstd::string::StringExecFns;
use vstd::utf8::{decode_utf8, valid_utf8};

verus! {

broadcast use vstd::string::group_string_axioms;

/// What a handler answered: status, headers and body.
#[derive(Debug)]
pub struct RecordedResponse {
    /// HTTP status code.
    pub status: u16,
    /// Response headers.
    pub headers: StringMap,
    /// Response body.
    pub body: Vec<u8>,
}

impl RecordedResponse {
    /// A response with `status`, no headers and an empty body.
    pub fn new(status: u16) -> (r: Self)
        ensures
            r.status == status,
            r.headers@ == Seq::<(Seq<char>, Seq<char>)>::empty(),
            r.body@ == Seq::<u8>::empty(),
    {
        RecordedResponse { status, headers: StringMap::new(), body: Vec::new() }
    }

    /// A `200 OK` response with no headers and an empty body.
    pub fn ok() -> (r: Self)
        ensures
            r.status == 200,
            r.headers@ == Seq::<(Seq<char>, Seq<char>)>::empty(),
            r.body@ == Seq::<u8>::empty(),
    {
        Self::new(200)
    }

    /// Add a header.
    pub fn with_header(self, key: &str, value: &str) -> (r: Self)
        ensures
            r.status == self.status,
            r.headers@ == inserted(self.headers@, key@, value@),
            r.body == self.body,
    {
        let RecordedResponse { status, mut headers, body } = self;
        headers.insert(key.to_string(), value.to_string());
        RecordedResponse { status, headers, body }
    }

    /// Set the body.
    pub fn with_body(self, body: Vec<u8>) -> (r: Self)
        ensures
            r == (RecordedResponse { body, ..self }),
    {
        RecordedResponse { body, ..self }
    }
}

/// Response from a test request: what the handler answered, or the text of
/// the error it failed with.
#[derive(Debug)]
pub enum TestResponse {
    Success(RecordedResponse),
    Error(String),
}

/// The status of a response; zero for an error.
pub open spec fn status_or_zero(r: TestResponse) -> u16 {
    match r {
        TestResponse::Success(resp) => resp.status,
        TestResponse::Error(_) => 0,
    }
}

/// The body of a successful response as text, when it is UTF-8.
pub open spec fn body_text(r: TestResponse) -> Option<Seq<char>> {
    match r {
        TestResponse::Success(resp) => if valid_utf8(resp.body@) {
            Some(decode_utf8(resp.body@))
        } else {
            None
        },
        TestResponse::Error(_) => None,
    }
}

/// The value of header `key` of a successful response.
pub open spec fn header_value(r: TestResponse, key: Seq<char>) -> Option<Seq<char>> {
    match r {
        TestResponse::Success(resp) => lookup(resp.headers@, key),
        TestResponse::Error(_) => None,
    }
}

/// A copy of some bytes.
fn copy_bytes(v: &Vec<u8>) -> (r: Vec<u8>)
    ensures
        r@ == v@,
{
    let mut r: Vec<u8> = Vec::new();
    let mut i: usize = 0;
    while i < v.len()
        invariant
            i <= v@.len(),
            r@ == v@.subrange(0, i as int),
        decreases v@.len() - i,
    {
        r.push(v[i]);
        i = i + 1;
        assert(r@ =~= v@.subrange(0, i as int));
    }
    assert(r@ =~= v@);
    r
}

impl TestResponse {
    /// The successful response; the response must not be an error.
    pub fn assert_success(&self) -> (r: &RecordedResponse)
        requires
            self is Success,
        ensures
            *self == TestResponse::Success(*r),
    {
        match self {
            TestResponse::Success(response) => response,
            TestResponse::Error(_) => {
                vstd::pervasive::unreached()
            },
        }
    }

    /// The error text; the response must be an error.
    pub fn assert_error(&self) -> (e: &String)
        requires
            self is Error,
        ensures
            *self == TestResponse::Error(*e),
    {
        match self {
            TestResponse::Error(error) => error,
            TestResponse::Success(_) => {
                vstd::pervasive::unreached()
            },
        }
    }

    /// Get the status code.
    pub fn status(&self) -> (s: Option<u16>)
        ensures
            s == (match *self {
                TestResponse::Success(resp) => Some(resp.status),
                TestResponse::Error(_) => None,
            }),
    {
        match self {
            TestResponse::Success(response) => Some(response.status),
            TestResponse::Error(_) => None,
        }
    }

    /// Get the response body as text; `None` for an error or a body that is
    /// not UTF-8.
    pub fn body_string(&self) -> (s: Option<String>)
        ensures
            match s {
                Some(t) => body_text(*self) == Some(t@),
                None => body_text(*self) is None,
            },
    {
        match self {
            TestResponse::Success(response) => utf8_decode(copy_bytes(&response.body)),
            TestResponse::Error(_) => None,
        }
    }

    /// What a JSON reading of the body starts from: the body's bytes, or the
    /// error's text when the request failed.
    pub fn body_json_source(&self) -> (r: Result<&[u8], &String>)
        ensures
            match *self {
                TestResponse::Success(resp) => r matches Ok(b) && b@ == resp.body@,
                TestResponse::Error(e) => r matches Err(t) && *t == e,
            },
    {
        match self {
            TestResponse::Success(response) => Ok(response.body.as_slice()),
            TestResponse::Error(error) => Err(error),
        }
    }

    /// Get a header value.
    pub fn header(&self, key: &str) -> (v: Option<&String>)
        ensures
            match v {
                Some(t) => header_value(*self, key@) == Some(t@),
                None => header_value(*self, key@) is None,
            },
    {
        match self {
            TestResponse::Success(response) => response.headers.get(key),
            TestResponse::Error(_) => None,
        }
    }
}

/// HTTP request method.
#[derive(Debug, Clone, Copy, PartialEq, Eq, Structural)]
pub enum HttpMethod {
    GET,
    POST,
    PUT,
    DELETE,
    PATCH,
    HEAD,
    OPTIONS,
    QUERY,
}

/// The method's name.
pub open spec fn method_name(m: HttpMethod) -> Seq<char> {
    match m {
        HttpMethod::GET => "GET"@,
        HttpMethod::POST => "POST"@,
        HttpMethod::PUT => "PUT"@,
        HttpMethod::DELETE => "DELETE"@,
        HttpMethod::PATCH => "PATCH"@,
        HttpMethod::HEAD => "HEAD"@,
        HttpMethod::OPTIONS => "OPTIONS"@,
        HttpMethod::QUERY => "QUERY"@,
    }
}

impl HttpMethod {
    /// The method's name, in capitals.
    pub fn as_str(&self) -> (s: &'static str)
        ensures
            s@ == method_name(*self),
    {
        match self {
            HttpMethod::GET => "GET",
            HttpMethod::POST => "POST",
            HttpMethod::PUT => "PUT",
            HttpMethod::DELETE => "DELETE",
            HttpMethod::PATCH => "PATCH",
            HttpMethod::HEAD => "HEAD",
            HttpMethod::OPTIONS => "OPTIONS",
            HttpMethod::QUERY => "QUERY",
        }
    }
}

/// The parts of a built test request.
#[derive(Debug)]
pub struct BuiltRequest {
    /// Method name.
    pub method: String,
    /// Path, with the query string appended.
    pub path: String,
    /// Headers.
    pub headers: StringMap,
    /// Body.
    pub body: Vec<u8>,
    /// Path parameters (none).
    pub path_params: StringMap,
    /// Query parameters.
    pub query_params: StringMap,
}

/// `k1=v1&k2=v2...` over the parameters, in order.
pub open spec fn joined_params(params: Entries) -> Seq<char>
    decreases params.len(),
{
    if params.len() == 0 {
        Seq::empty()
    } else if params.len() == 1 {
        params[0].0 + "="@ + params[0].1
    } else {
        joined_params(params.drop_last()) + "&"@ + params.last().0 + "="@ + params.last().1
    }
}

/// The query string: empty without parameters, else `?` and the joined
/// parameters.
pub open spec fn query_string_of(params: Entries) -> Seq<char> {
    if params.len() == 0 {
        Seq::empty()
    } else {
        "?"@ + joined_params(params)
    }
}

/// Builder for test requests.
pub struct TestRequestBuilder {
    method: HttpMethod,
    path: String,
    headers: StringMap,
    body: Vec<u8>,
    query_params: StringMap,
}

impl TestRequestBuilder {
    pub closed spec fn spec_method(&self) -> HttpMethod {
        self.method
    }

    pub closed spec fn spec_path(&self) -> Seq<char> {
        self.path@
    }

    pub closed spec fn spec_headers(&self) -> Entries {
        self.headers@
    }

    pub closed spec fn spec_body(&self) -> Seq<u8> {
        self.body@
    }

    pub closed spec fn spec_query_params(&self) -> Entries {
        self.query_params@
    }

    /// A request for `method` and `path` without headers, body or query.
    pub fn new(method: HttpMethod, path: &str) -> (b: Self)
        ensures
            b.spec_method() == method,
            b.spec_path() == path@,
            b.spec_headers() == Seq::<(Seq<char>, Seq<char>)>::empty(),
            b.spec_body() == Seq::<u8>::empty(),
            b.spec_query_params() == Seq::<(Seq<char>, Seq<char>)>::empty(),
    {
        TestRequestBuilder {
            method,
            path: path.to_string(),
            headers: StringMap::new(),
            body: Vec::new(),
            query_params: StringMap::new(),
        }
    }

    /// Add a header.
    pub fn header(self, key: &str, value: &str) -> (b: Self)
        ensures
            b.spec_method() == self.spec_method(),
            b.spec_path() == self.spec_path(),
            b.spec_headers() == inserted(self.spec_headers(), key@, value@),
            b.spec_body() == self.spec_body(),
            b.spec_query_params() == self.spec_query_params(),
    {
        let TestRequestBuilder { method, path, mut headers, body, query_params } = self;
        headers.insert(key.to_string(), value.to_string());
        TestRequestBuilder { method, path, headers, body, query_params }
    }

    /// Set the body.
    pub fn body(self, body: Vec<u8>) -> (b: Self)
        ensures
            b.spec_method() == self.spec_method(),
            b.spec_path() == self.spec_path(),
            b.spec_headers() == self.spec_headers(),
            b.spec_body() == body@,
            b.spec_query_params() == self.spec_query_params(),
    {
        TestRequestBuilder { body, ..self }
    }

    /// Set a JSON body: `serialized` is the value as `serde_json` wrote it;
    /// the `Content-Type` header becomes `application/json`.
    pub fn json(self, serialized: Vec<u8>) -> (b: Self)
        ensures
            b.spec_method() == self.spec_method(),
            b.spec_path() == self.spec_path(),
            b.spec_headers() == inserted(self.spec_headers(), "Content-Type"@, "application/json"@),
            b.spec_body() == serialized@,
            b.spec_query_params() == self.spec_query_params(),
    {
        let TestRequestBuilder { method, path, mut headers, body: _, query_params } = self;
        headers.insert(String::from_str("Content-Type"), String::from_str("application/json"));
        TestRequestBuilder { method, path, headers, body: serialized, query_params }
    }

    /// Add a query parameter.
    pub fn query(self, key: &str, value: &str) -> (b: Self)
        ensures
            b.spec_method() == self.spec_method(),
            b.spec_path() == self.spec_path(),
            b.spec_headers() == self.spec_headers(),
            b.spec_body() == self.spec_body(),
            b.spec_query_params() == inserted(self.spec_query_params(), key@, value@),
    {
        let TestRequestBuilder { method, path, headers, body, mut query_params } = self;
        query_params.insert(key.to_string(), value.to_string());
        TestRequestBuilder { method, path, headers, body, query_params }
    }

    /// Build the request: the query parameters are appended to the path as a
    /// query string, in the order they were added.
    pub fn build(self) -> (r: BuiltRequest)
        ensures
            r.method@ == method_name(self.spec_method()),
            r.path@ == self.spec_path() + query_string_of(self.spec_query_params()),
            r.headers@ == self.spec_headers(),
            r.body@ == self.spec_body(),
            r.path_params@ == Seq::<(Seq<char>, Seq<char>)>::empty(),
            r.query_params@ == self.spec_query_params(),
    {
        let TestRequestBuilder { method, path, headers, body, query_params } = self;
        let ghost path_view = path@;
        let mut full_path = path;
        let n = query_params.len();
        if n > 0 {
            full_path.append("?");
            let ghost base = full_path@;
            let mut i: usize = 0;
            while i < n
                invariant
                    n == query_params@.len(),
                    i <= n,
                    full_path@ == base + joined_params(query_params@.subrange(0, i as int)),
                decreases n - i,
            {
                let (k, v) = query_params.entry(i);
                let ghost before = full_path@;
                if i > 0 {
                    full_path.append("&");
                }
                full_path.append(k.as_str());
                full_path.append("=");
                full_path.append(v.as_str());
                proof {
                    let pre = query_params@.subrange(0, i as int);
                    let post = query_params@.subrange(0, i as int + 1);
                    assert(post.drop_last() =~= pre);
                    if i == 0 {
                        assert(pre =~= Seq::<(Seq<char>, Seq<char>)>::empty());
                        assert(joined_params(pre) =~= Seq::<char>::empty());
                        assert(full_path@ =~= base + joined_params(post));
                    } else {
                        assert(full_path@ =~= base + joined_params(post));
                    }
                }
                i = i + 1;
            }
            assert(query_params@.subrange(0, n as int) =~= query_params@);
            assert(full_path@ =~= path_view + query_string_of(query_params@));
        } else {
            assert(full_path@ =~= path_view + query_string_of(query_params@));
        }
        BuiltRequest {
            method: String::from_str(method.as_str()),
            path: full_path,
            headers,
            body,
            path_params: StringMap::new(),
            query_params,
        }
    }
}

} // verus!
