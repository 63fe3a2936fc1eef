//! Contract testing (Pact): consumer-driven contracts and their verification
//! against actual responses.
use crate::json::{json_debug, json_equivalent, JsonBody};
use crate::string_map::{lookup, Entries, StringMap};
use crate::text::{decimal, decimal_string, lowercase_text, lowercased};
use vstd::prelude::*;
use vstd::string::StringExecFns;

verus! {

broadcast use vstd::string::group_string_axioms;

#[verifier::external_type_specification]
#[verifier::external_body]
pub struct ExPathBuf(std::path::PathBuf);

/// Contract testing errors.
#[derive(Debug)]
pub enum ContractError {
    VerificationFailed(String),
    SerializationError(String),
    IoError(String),
    InvalidContract(String),
}

/// HTTP method of a contract request.
#[derive(Debug, Clone, Copy, PartialEq, Eq, Structural)]
pub enum ContractMethod {
    Get,
    Post,
    Put,
    Delete,
    Patch,
    Head,
    Options,
}

/// Contract request.
#[derive(Debug, Clone)]
pub struct ContractRequest {
    /// HTTP method.
    pub method: ContractMethod,
    /// Request path.
    pub path: String,
    /// Query parameters.
    pub query: Option<StringMap>,
    /// Request headers.
    pub headers: Option<StringMap>,
    /// Request body.
    pub body: Option<JsonBody>,
}

/// The entries of an optional map after inserting `(k, v)`, creating the map
/// when it is absent.
pub open spec fn inserted_into(m: Option<StringMap>, k: Seq<char>, v: Seq<char>) -> Entries {
    crate::string_map::inserted(
        match m {
            Some(m) => m@,
            None => Seq::empty(),
        },
        k,
        v,
    )
}

/// Insert into an optional map, creating it when absent.
fn insert_into(m: Option<StringMap>, key: &str, value: &str) -> (r: StringMap)
    ensures
        r@ == inserted_into(m, key@, value@),
{
    let mut map = match m {
        Some(map) => map,
        None => StringMap::new(),
    };
    map.insert(key.to_string(), value.to_string());
    map
}

impl ContractRequest {
    /// Create a contract request with no query, headers or body.
    pub fn new(method: ContractMethod, path: &str) -> (r: Self)
        ensures
            r.method == method,
            r.path@ == path@,
            r.query is None,
            r.headers is None,
            r.body is None,
    {
        ContractRequest { method, path: path.to_string(), query: None, headers: None, body: None }
    }

    /// Add a query parameter.
    pub fn with_query(self, key: &str, value: &str) -> (r: Self)
        ensures
            r.method == self.method,
            r.path == self.path,
            r.query matches Some(q) && q@ == inserted_into(self.query, key@, value@),
            r.headers == self.headers,
            r.body == self.body,
    {
        let ContractRequest { method, path, query, headers, body } = self;
        ContractRequest { method, path, query: Some(insert_into(query, key, value)), headers, body }
    }

    /// Add a header.
    pub fn with_header(self, key: &str, value: &str) -> (r: Self)
        ensures
            r.method == self.method,
            r.path == self.path,
            r.query == self.query,
            r.headers matches Some(h) && h@ == inserted_into(self.headers, key@, value@),
            r.body == self.body,
    {
        let ContractRequest { method, path, query, headers, body } = self;
        ContractRequest { method, path, query, headers: Some(insert_into(headers, key, value)), body }
    }

    /// Set the body.
    pub fn with_body(self, body: JsonBody) -> (r: Self)
        ensures
            r == (ContractRequest { body: Some(body), ..self }),
    {
        ContractRequest { body: Some(body), ..self }
    }
}

/// Contract response.
#[derive(Debug, Clone)]
pub struct ContractResponse {
    /// HTTP status code.
    pub status: u16,
    /// Response headers.
    pub headers: Option<StringMap>,
    /// Response body.
    pub body: Option<JsonBody>,
}

impl ContractResponse {
    /// Create a contract response with no headers or body.
    pub fn new(status: u16) -> (r: Self)
        ensures
            r.status == status,
            r.headers is None,
            r.body is None,
    {
        ContractResponse { status, headers: None, body: None }
    }

    /// Add a header.
    pub fn with_header(self, key: &str, value: &str) -> (r: Self)
        ensures
            r.status == self.status,
            r.headers matches Some(h) && h@ == inserted_into(self.headers, key@, value@),
            r.body == self.body,
    {
        let ContractResponse { status, headers, body } = self;
        ContractResponse { status, headers: Some(insert_into(headers, key, value)), body }
    }

    /// Set the body.
    pub fn with_body(self, body: JsonBody) -> (r: Self)
        ensures
            r == (ContractResponse { body: Some(body), ..self }),
    {
        ContractResponse { body: Some(body), ..self }
    }
}

/// Contract interaction.
#[derive(Debug, Clone)]
pub struct ContractInteraction {
    /// Interaction description.
    pub description: String,
    /// Provider state (optional).
    pub provider_state: Option<String>,
    /// Request.
    pub request: ContractRequest,
    /// Response.
    pub response: ContractResponse,
}

impl ContractInteraction {
    /// Create an interaction with no provider state.
    pub fn new(description: &str, request: ContractRequest, response: ContractResponse) -> (r: Self)
        ensures
            r.description@ == description@,
            r.provider_state is None,
            r.request == request,
            r.response == response,
    {
        ContractInteraction {
            description: description.to_string(),
            provider_state: None,
            request,
            response,
        }
    }

    /// Set the provider state.
    pub fn with_provider_state(self, state: &str) -> (r: Self)
        ensures
            r.description == self.description,
            r.provider_state matches Some(s) && s@ == state@,
            r.request == self.request,
            r.response == self.response,
    {
        ContractInteraction { provider_state: Some(state.to_string()), ..self }
    }
}

/// Participant (consumer or provider).
#[derive(Debug, Clone)]
pub struct Participant {
    pub name: String,
}

impl Participant {
    /// A participant called `name`.
    pub fn new(name: &str) -> (p: Self)
        ensures
            p.name@ == name@,
    {
        Participant { name: name.to_string() }
    }
}

/// Pact specification version.
#[derive(Debug, Clone)]
pub struct PactSpecification {
    pub version: String,
}

impl Default for PactSpecification {
    /// Version "3.0.0".
    fn default() -> (p: Self)
        ensures
            p.version@ == "3.0.0"@,
    {
        PactSpecification { version: String::from_str("3.0.0") }
    }
}

/// Contract metadata.
#[derive(Debug, Clone)]
pub struct ContractMetadata {
    pub pact_specification: PactSpecification,
}

impl Default for ContractMetadata {
    /// Metadata of a Pact "3.0.0" contract.
    fn default() -> (m: Self)
        ensures
            m.pact_specification.version@ == "3.0.0"@,
    {
        ContractMetadata { pact_specification: PactSpecification::default() }
    }
}

/// Consumer contract (Pact).
#[derive(Debug, Clone)]
pub struct Contract {
    /// Consumer name.
    pub consumer: Participant,
    /// Provider name.
    pub provider: Participant,
    /// Interactions.
    pub interactions: Vec<ContractInteraction>,
    /// Metadata.
    pub metadata: ContractMetadata,
}

/// Contract builder.
pub struct ContractBuilder {
    consumer: String,
    provider: String,
    interactions: Vec<ContractInteraction>,
}

impl ContractBuilder {
    pub closed spec fn consumer(&self) -> Seq<char> {
        self.consumer@
    }

    pub closed spec fn provider(&self) -> Seq<char> {
        self.provider@
    }

    pub closed spec fn interactions(&self) -> Seq<ContractInteraction> {
        self.interactions@
    }

    /// A builder for the contract between `consumer` and `provider`, with no
    /// interactions yet.
    pub fn new(consumer: &str, provider: &str) -> (b: Self)
        ensures
            b.consumer() == consumer@,
            b.provider() == provider@,
            b.interactions() == Seq::<ContractInteraction>::empty(),
    {
        ContractBuilder {
            consumer: consumer.to_string(),
            provider: provider.to_string(),
            interactions: Vec::new(),
        }
    }

    /// Add an interaction after those already added.
    pub fn add_interaction(&mut self, interaction: ContractInteraction) -> (r: &mut Self)
        ensures
            r.consumer() == old(self).consumer(),
            r.provider() == old(self).provider(),
            r.interactions() == old(self).interactions().push(interaction),
            *final(self) == *final(r),
    {
        self.interactions.push(interaction);
        self
    }

    /// Build the contract.
    pub fn build(self) -> (c: Contract)
        ensures
            c.consumer.name@ == self.consumer(),
            c.provider.name@ == self.provider(),
            c.interactions@ == self.interactions(),
            c.metadata.pact_specification.version@ == "3.0.0"@,
    {
        let ContractBuilder { consumer, provider, interactions } = self;
        Contract {
            consumer: Participant { name: consumer },
            provider: Participant { name: provider },
            interactions,
            metadata: ContractMetadata::default(),
        }
    }
}

/// Contract manager: where contracts are stored, and under which file names.
pub struct ContractManager {
    contracts_dir: std::path::PathBuf,
}

/// The file a contract between `consumer` and `provider` is stored in.
pub open spec fn contract_file_name_of(consumer: Seq<char>, provider: Seq<char>) -> Seq<char> {
    lowercased(consumer) + "-"@ + lowercased(provider) + ".json"@
}

/// Position of the last `.` in `name`, or `-1` when there is none.
pub open spec fn last_dot(name: Seq<char>) -> int
    decreases name.len(),
{
    if name.len() == 0 {
        -1
    } else if name.last() == '.' {
        name.len() - 1
    } else {
        last_dot(name.drop_last())
    }
}

/// The extension of file name `name`, as `Path::extension` gives it: the
/// part after the final `.`; none when there is no `.`, or when the only one
/// starts the name.
pub open spec fn file_extension(name: Seq<char>) -> Option<Seq<char>> {
    let p = last_dot(name);
    if p <= 0 {
        None
    } else {
        Some(name.subrange(p + 1, name.len() as int))
    }
}

impl ContractManager {
    pub closed spec fn dir(&self) -> std::path::PathBuf {
        self.contracts_dir
    }

    /// A manager storing contracts under `contracts_dir`.
    pub fn new(contracts_dir: std::path::PathBuf) -> (m: Self)
        ensures
            m.dir() == contracts_dir,
    {
        ContractManager { contracts_dir }
    }

    /// The directory contracts are stored in.
    pub fn contracts_dir(&self) -> (d: &std::path::PathBuf)
        ensures
            *d == self.dir(),
    {
        &self.contracts_dir
    }

    /// Whether a directory entry called `file_name` is a contract file: its
    /// extension is `json`.
    pub fn is_contract_file(file_name: &str) -> (b: bool)
        ensures
            b == (file_extension(file_name@) == Some("json"@)),
    {
        let n = file_name.unicode_len();
        let mut i: usize = n;
        assert(file_name@.subrange(0, n as int) =~= file_name@);
        while i > 0
            invariant
                n == file_name@.len(),
                i <= n,
                last_dot(file_name@) == last_dot(file_name@.subrange(0, i as int)),
            ensures
                i <= n,
                last_dot(file_name@) == last_dot(file_name@.subrange(0, i as int)),
                i > 0 ==> file_name@[i - 1] == '.',
            decreases i,
        {
            if file_name.get_char(i - 1) == '.' {
                break;
            }
            proof {
                assert(file_name@.subrange(0, i as int).drop_last() =~= file_name@.subrange(
                    0,
                    i as int - 1,
                ));
            }
            i = i - 1;
        }
        proof {
            if i > 0 {
                assert(file_name@.subrange(0, i as int).last() == '.');
            } else {
                assert(file_name@.subrange(0, 0) =~= Seq::<char>::empty());
            }
            reveal_strlit("json");
        }
        if i <= 1 {
            return false;
        }
        let ext = file_name.substring_char(i, n).to_string();
        let expected = String::from_str("json");
        ext.eq(&expected)
    }

    /// File name of the contract between `consumer` and `provider`:
    /// `{consumer}-{provider}.json`, both lowercased.
    pub fn contract_file_name(consumer: &str, provider: &str) -> (name: String)
        ensures
            name@ == contract_file_name_of(consumer@, provider@),
    {
        let mut name = lowercase_text(consumer);
        name.append("-");
        let p = lowercase_text(provider);
        name.append(p.as_str());
        name.append(".json");
        name
    }
}

/// `actual` holds header `k` with value `v`.
pub open spec fn header_holds(actual: Entries, k: Seq<char>, v: Seq<char>) -> bool {
    lookup(actual, k) == Some(v)
}

/// Every expected header is held by `actual`.
pub open spec fn all_headers_hold(expected: Entries, actual: Entries) -> bool {
    forall|i: int|
        0 <= i < expected.len() ==> header_holds(actual, #[trigger] expected[i].0, expected[i].1)
}

/// `i` is the first expected header that `actual` does not hold.
pub open spec fn is_first_failing_header(expected: Entries, actual: Entries, i: int) -> bool {
    &&& 0 <= i < expected.len()
    &&& !header_holds(actual, expected[i].0, expected[i].1)
    &&& forall|j: int|
        0 <= j < i ==> header_holds(actual, #[trigger] expected[j].0, expected[j].1)
}

/// The first expected header that `actual` does not hold.
pub open spec fn first_failing_header(expected: Entries, actual: Entries) -> int {
    choose|i: int| is_first_failing_header(expected, actual, i)
}

/// The message for expected header `(k, v)` that `actual` does not hold.
pub open spec fn header_failure_message(k: Seq<char>, v: Seq<char>, actual: Entries) -> Seq<char> {
    match lookup(actual, k) {
        None => "Missing header: "@ + k,
        Some(a) => "Header mismatch for '"@ + k + "': expected '"@ + v + "', got '"@ + a + "'"@,
    }
}

/// The message for a status mismatch.
pub open spec fn status_failure_message(expected: u16, actual: u16) -> Seq<char> {
    "Status mismatch: expected "@ + decimal(expected as nat) + ", got "@ + decimal(actual as nat)
}

/// Why `actual` fails the `expected` response, checked in the order status,
/// headers (in their order), body; `None` when it passes.
pub open spec fn verification_failure(expected: ContractResponse, actual: ContractResponse) -> Option<
    Seq<char>,
> {
    if expected.status != actual.status {
        Some(status_failure_message(expected.status, actual.status))
    } else if expected.headers is Some && actual.headers is None {
        Some("Missing response headers"@)
    } else if expected.headers is Some && !all_headers_hold(
        expected.headers.unwrap()@,
        actual.headers.unwrap()@,
    ) {
        let e = expected.headers.unwrap()@;
        let i = first_failing_header(e, actual.headers.unwrap()@);
        Some(header_failure_message(e[i].0, e[i].1, actual.headers.unwrap()@))
    } else if expected.body is Some && actual.body is None {
        Some("Missing response body"@)
    } else if expected.body is Some && !json_equivalent(
        expected.body.unwrap()@,
        actual.body.unwrap()@,
    ) {
        Some(
            "Body mismatch: expected "@ + json_debug(expected.body.unwrap()@) + ", got "@
                + json_debug(actual.body.unwrap()@),
        )
    } else {
        None
    }
}

/// `actual` meets the `expected` response: the same status; when headers are
/// expected, actual headers that are the same map or hold every expected
/// header; when a body is expected, an actual body with the same text.
pub open spec fn response_matches(expected: ContractResponse, actual: ContractResponse) -> bool {
    &&& expected.status == actual.status
    &&& match expected.headers {
        None => true,
        Some(e) => match actual.headers {
            None => false,
            Some(a) => a@ == e@ || all_headers_hold(e@, a@),
        },
    }
    &&& match expected.body {
        None => true,
        Some(e) => match actual.body {
            None => false,
            Some(a) => a@ == e@,
        },
    }
}

/// `actual` meets every expectation of `expected`: the same status; when
/// headers are expected, actual headers holding each expected header with
/// its value; when a body is expected, an actual body that is the same JSON
/// value.
pub open spec fn response_satisfies(expected: ContractResponse, actual: ContractResponse) -> bool {
    &&& expected.status == actual.status
    &&& expected.headers is Some ==> actual.headers is Some && forall|i: int|
        0 <= i < expected.headers.unwrap()@.len() ==> lookup(
            actual.headers.unwrap()@,
            #[trigger] expected.headers.unwrap()@[i].0,
        ) == Some(expected.headers.unwrap()@[i].1)
    &&& expected.body is Some ==> actual.body is Some && json_equivalent(
        expected.body.unwrap()@,
        actual.body.unwrap()@,
    )
}

/// `r` reports `failure`: `Ok` when there is none, else a verification
/// failure with that message.
pub open spec fn reports(r: Result<(), ContractError>, failure: Option<Seq<char>>) -> bool {
    match failure {
        None => r is Ok,
        Some(m) => r matches Err(ContractError::VerificationFailed(s)) && s@ == m,
    }
}

/// The first failure among the pairs from position `i` on.
pub open spec fn failure_from(pairs: Seq<(ContractInteraction, ContractResponse)>, i: int) -> Option<
    Seq<char>,
>
    decreases pairs.len() - i,
{
    if i < 0 || i >= pairs.len() {
        None
    } else {
        match verification_failure(pairs[i].0.response, pairs[i].1) {
            Some(m) => Some(m),
            None => failure_from(pairs, i + 1),
        }
    }
}

/// Contract verifier.
pub struct ContractVerifier;

impl ContractVerifier {
    /// Verify an interaction's expected response against an actual response.
    ///
    /// Only the response side (status, headers, body) is checked; the request
    /// is not used. Headers are checked in the order they were added, and the
    /// first one missing or different is reported.
    pub fn verify_interaction(
        interaction: &ContractInteraction,
        actual_response: &ContractResponse,
    ) -> (r: Result<(), ContractError>)
        ensures
            reports(r, verification_failure(interaction.response, *actual_response)),
            response_matches(interaction.response, *actual_response) ==> r is Ok,
            r is Ok ==> response_satisfies(interaction.response, *actual_response),
    {
        let expected = &interaction.response;
        if expected.status != actual_response.status {
            let mut m = String::from_str("Status mismatch: expected ");
            let e = decimal_string(expected.status as u64);
            m.append(e.as_str());
            m.append(", got ");
            let a = decimal_string(actual_response.status as u64);
            m.append(a.as_str());
            return Err(ContractError::VerificationFailed(m));
        }
        match &expected.headers {
            Some(expected_headers) => match &actual_response.headers {
                None => {
                    return Err(
                        ContractError::VerificationFailed(
                            String::from_str("Missing response headers"),
                        ),
                    );
                },
                Some(actual_headers) => {
                    let mut i: usize = 0;
                    while i < expected_headers.len()
                        invariant
                            interaction.response.status == actual_response.status,
                            interaction.response.headers == Some(*expected_headers),
                            actual_response.headers == Some(*actual_headers),
                            i <= expected_headers@.len(),
                            forall|j: int|
                                0 <= j < i ==> header_holds(
                                    actual_headers@,
                                    #[trigger] expected_headers@[j].0,
                                    expected_headers@[j].1,
                                ),
                        decreases expected_headers@.len() - i,
                    {
                        let (key, expected_value) = expected_headers.entry(i);
                        match actual_headers.get(key.as_str()) {
                            None => {
                                let mut m = String::from_str("Missing header: ");
                                m.append(key.as_str());
                                proof {
                                    lemma_first_failing_unique(
                                        expected_headers@,
                                        actual_headers@,
                                        i as int,
                                    );
                                }
                                return Err(ContractError::VerificationFailed(m));
                            },
                            Some(actual_value) => {
                                if !actual_value.eq(expected_value) {
                                    let mut m = String::from_str("Header mismatch for '");
                                    m.append(key.as_str());
                                    m.append("': expected '");
                                    m.append(expected_value.as_str());
                                    m.append("', got '");
                                    m.append(actual_value.as_str());
                                    m.append("'");
                                    proof {
                                        lemma_first_failing_unique(
                                            expected_headers@,
                                            actual_headers@,
                                            i as int,
                                        );
                                    }
                                    return Err(ContractError::VerificationFailed(m));
                                }
                            },
                        }
                        i = i + 1;
                    }
                },
            },
            None => {},
        }
        match &expected.body {
            Some(expected_body) => match &actual_response.body {
                None => {
                    return Err(
                        ContractError::VerificationFailed(String::from_str("Missing response body")),
                    );
                },
                Some(actual_body) => {
                    if !expected_body.same_value(actual_body) {
                        let mut m = String::from_str("Body mismatch: expected ");
                        let e = expected_body.debug_text();
                        m.append(e.as_str());
                        m.append(", got ");
                        let a = actual_body.debug_text();
                        m.append(a.as_str());
                        return Err(ContractError::VerificationFailed(m));
                    }
                },
            },
            None => {},
        }
        Ok(())
    }

    /// Verify every interaction against its actual response, in order; the
    /// first failure is returned.
    pub fn verify_contract(
        _contract: &Contract,
        interactions_results: &[(ContractInteraction, ContractResponse)],
    ) -> (r: Result<(), ContractError>)
        ensures
            reports(r, failure_from(interactions_results@, 0)),
            r is Ok ==> forall|j: int|
                0 <= j < interactions_results@.len() ==> response_satisfies(
                    (#[trigger] interactions_results@[j]).0.response,
                    interactions_results@[j].1,
                ),
    {
        let mut i: usize = 0;
        while i < interactions_results.len()
            invariant
                i <= interactions_results@.len(),
                forall|j: int|
                    0 <= j < i ==> response_satisfies(
                        (#[trigger] interactions_results@[j]).0.response,
                        interactions_results@[j].1,
                    ),
                failure_from(interactions_results@, 0) == failure_from(
                    interactions_results@,
                    i as int,
                ),
            decreases interactions_results@.len() - i,
        {
            let pair = &interactions_results[i];
            let r = Self::verify_interaction(&pair.0, &pair.1);
            if r.is_err() {
                return r;
            }
            i = i + 1;
        }
        Ok(())
    }
}

/// A first failing header is the one `first_failing_header` picks.
proof fn lemma_first_failing_unique(expected: Entries, actual: Entries, i: int)
    requires
        is_first_failing_header(expected, actual, i),
    ensures
        !all_headers_hold(expected, actual),
        first_failing_header(expected, actual) == i,
{
    let j = first_failing_header(expected, actual);
    assert(is_first_failing_header(expected, actual, j));
    if j < i {
        assert(header_holds(actual, expected[j].0, expected[j].1));
    } else if i < j {
        assert(header_holds(actual, expected[i].0, expected[i].1));
    }
}

/// Law: a contract verifies exactly when each of its interactions verifies
/// against its actual response.
pub proof fn lemma_contract_passes_iff_each_passes(
    pairs: Seq<(ContractInteraction, ContractResponse)>,
    i: int,
)
    requires
        0 <= i <= pairs.len(),
    ensures
        failure_from(pairs, i) is None <==> forall|j: int|
            i <= j < pairs.len() ==> (#[trigger] verification_failure(pairs[j].0.response, pairs[j].1))
                is None,
    decreases pairs.len() - i,
{
    if i < pairs.len() {
        lemma_contract_passes_iff_each_passes(pairs, i + 1);
    }
}

} // verus!
