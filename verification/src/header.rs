//! A single header field: an owned key/value pair of text with the canonical
//! `"Key: Value"` rendering.

use vstd::prelude::*;
use vstd::string::StringExecFns;

verus! {

/// The separator between a header's key and its value on the wire.
pub open spec fn header_sep() -> Seq<char> {
    ": "@
}

/// An ordered key/value pair of text; no escaping or normalization is
/// performed on either part.
#[derive(Debug, PartialEq, Clone)]
pub struct Header {
    pub key: String,
    pub value: String,
}

impl Header {
    /// The canonical text rendering of the header: `key`, `": "`, `value`.
    pub open spec fn text(self) -> Seq<char> {
        self.key@ + header_sep() + self.value@
    }

    /// Create a new header field from a key and a value.
    pub fn new(key: &str, value: &str) -> (h: Header)
        ensures
            h.key@ == key@,
            h.value@ == value@,
    {
        Header { key: key.to_owned(), value: value.to_owned() }
    }

    /// Render the header as `"key: value"`.
    pub fn to_string(&self) -> (r: String)
        ensures
            r@ == self.text(),
    {
        let mut out = self.key.clone();
        out.append(": ");
        out.append(self.value.as_str());
        proof {
            assert(out@ =~= self.text());
        }
        out
    }
}

} // verus!
