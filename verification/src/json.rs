//! JSON documents held as their text; parsing and comparing them is
//! `serde_json`'s work.
use vstd::prelude::*;

verus! {

/// Whether `serde_json` parses `text` as a JSON value.
pub uninterp spec fn valid_json(text: Seq<char>) -> bool;

/// Whether `serde_json` parses `a` and `b` to equal JSON values.
pub uninterp spec fn json_equivalent(a: Seq<char>, b: Seq<char>) -> bool;

/// The `Debug` rendering of the JSON value `serde_json` parses from `text`.
pub uninterp spec fn json_debug(text: Seq<char>) -> Seq<char>;

/// Whether `text` is JSON.
///
/// Calls `serde_json::from_str::<serde_json::Value>` and reports whether it
/// succeeded; the result is named `valid_json` of the text.
#[verifier::external_body]
fn parses_as_json(text: &str) -> (b: bool)
    ensures
        b == valid_json(text@),
{
    serde_json::from_str::<serde_json::Value>(text).is_ok()
}

/// Whether two JSON texts denote the same value.
///
/// Parses both with `serde_json::from_str::<serde_json::Value>` and compares
/// the values with `Value`'s `==`; the result is named `json_equivalent` of
/// the two texts. A text that does not parse compares unequal. `Value`'s
/// equality is derived, and the numbers `serde_json` parses are finite, so it
/// is reflexive and symmetric: the contract claims that a JSON text equals
/// itself and that the order of the two texts does not matter.
#[verifier::external_body]
fn same_json_value(a: &str, b: &str) -> (r: bool)
    ensures
        r == json_equivalent(a@, b@),
        r == json_equivalent(b@, a@),
        (a@ == b@ && valid_json(a@)) ==> r,
{
    match (
        serde_json::from_str::<serde_json::Value>(a),
        serde_json::from_str::<serde_json::Value>(b),
    ) {
        (Ok(x), Ok(y)) => x == y,
        _ => false,
    }
}

/// `Debug` text of a JSON document.
///
/// Parses `text` with `serde_json::from_str::<serde_json::Value>` and renders
/// the value with `{:?}`; the result is named `json_debug` of the text. The
/// text must parse, else the call would panic.
#[verifier::external_body]
fn json_debug_text(text: &str) -> (r: String)
    requires
        valid_json(text@),
    ensures
        r@ == json_debug(text@),
{
    format!("{:?}", serde_json::from_str::<serde_json::Value>(text).unwrap())
}

/// A JSON document, kept as text that `serde_json` accepts.
#[derive(Debug)]
pub struct JsonBody {
    text: String,
}

impl View for JsonBody {
    type V = Seq<char>;

    closed spec fn view(&self) -> Seq<char> {
        self.text@
    }
}

impl JsonBody {
    #[verifier::type_invariant]
    closed spec fn inv(self) -> bool {
        valid_json(self.text@)
    }

    /// The document `text`, when it is JSON.
    pub fn parse(text: &str) -> (r: Option<JsonBody>)
        ensures
            r is Some <==> valid_json(text@),
            r matches Some(b) ==> b@ == text@,
    {
        if parses_as_json(text) {
            Some(JsonBody { text: text.to_string() })
        } else {
            None
        }
    }

    /// The document's text.
    pub fn as_str(&self) -> (s: &str)
        ensures
            s@ == self@,
            valid_json(s@),
    {
        proof {
            use_type_invariant(self);
        }
        self.text.as_str()
    }

    /// Whether both documents denote the same JSON value.
    pub fn same_value(&self, other: &JsonBody) -> (b: bool)
        ensures
            b == json_equivalent(self@, other@),
            b == json_equivalent(other@, self@),
            self@ == other@ ==> b,
    {
        proof {
            use_type_invariant(self);
        }
        same_json_value(self.text.as_str(), other.text.as_str())
    }

    /// `Debug` rendering of the document's value.
    pub fn debug_text(&self) -> (s: String)
        ensures
            s@ == json_debug(self@),
    {
        proof {
            use_type_invariant(self);
        }
        json_debug_text(self.text.as_str())
    }
}

impl Clone for JsonBody {
    fn clone(&self) -> (c: Self)
        ensures
            c@ == self@,
    {
        proof {
            use_type_invariant(self);
        }
        JsonBody { text: self.text.clone() }
    }
}

} // verus!
