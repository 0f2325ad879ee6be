//! The closed set of supported HTTP request methods and the conversions
//! between a method and its uppercase wire string.

use vstd::prelude::*;
use crate::error::Error;
use crate::error::ErrorType;
use crate::text::str_eq;

verus! {

/// A supported HTTP request method.
#[derive(Debug, PartialEq, Eq, Structural, Clone, Copy)]
pub enum Method {
    HEAD,
    GET,
    POST,
    PUT,
    DELETE,
}

/// The wire string of a method.
pub open spec fn method_text(m: Method) -> Seq<char> {
    match m {
        Method::HEAD => "HEAD"@,
        Method::GET => "GET"@,
        Method::POST => "POST"@,
        Method::PUT => "PUT"@,
        Method::DELETE => "DELETE"@,
    }
}

impl Method {
    /// Create a new `Method` from a string representation: exactly the
    /// uppercase name of a supported method succeeds, anything else fails
    /// with a validation error.
    pub fn from_string(from: &str) -> (r: Result<Method, Error>)
        ensures
            (match r {
                Ok(m) => from@ == method_text(m),
                Err(e) => {
                    &&& forall|m: Method| from@ != method_text(m)
                    &&& e.err_type == ErrorType::InvalidMethod
                    &&& e.msg@ == "Invalid or unsupported http method"@
                },
            }),
    {
        if str_eq(from, "HEAD") {
            Ok(Method::HEAD)
        } else if str_eq(from, "GET") {
            Ok(Method::GET)
        } else if str_eq(from, "POST") {
            Ok(Method::POST)
        } else if str_eq(from, "PUT") {
            Ok(Method::PUT)
        } else if str_eq(from, "DELETE") {
            Ok(Method::DELETE)
        } else {
            proof {
                assert forall|m: Method| from@ != method_text(m) by {
                    match m {
                        Method::HEAD => assert(from@ != method_text(m)),
                        Method::GET => assert(from@ != method_text(m)),
                        Method::POST => assert(from@ != method_text(m)),
                        Method::PUT => assert(from@ != method_text(m)),
                        Method::DELETE => assert(from@ != method_text(m)),
                    }
                }
            }
            Err(Error {
                err_type: ErrorType::InvalidMethod,
                msg: "Invalid or unsupported http method".to_owned(),
            })
        }
    }

    /// The wire string of the method.
    pub fn to_string(&self) -> (r: String)
        ensures
            r@ == method_text(*self),
    {
        let text = match self {
            Method::HEAD => "HEAD",
            Method::GET => "GET",
            Method::POST => "POST",
            Method::PUT => "PUT",
            Method::DELETE => "DELETE",
        };
        text.to_owned()
    }
}

} // verus!
