//! The closed set of supported HTTP status codes, each with a numeric code
//! and an uppercase reason phrase, and the conversions between a status and
//! its wire forms.

use vstd::prelude::*;
use vstd::string::StringExecFns;
use crate::error::Error;
use crate::error::ErrorType;
use crate::text::dec_str;
use crate::text::find_pat;
use crate::text::lemma_find_single_after;
use crate::text::str_eq;
use crate::text::u64_to_string;

verus! {

/// A supported HTTP status code.
#[derive(Debug, PartialEq, Eq, Structural, Clone, Copy)]
pub enum Status {
    SwitchingProtocols,
    OK,
    SeeOther,
    NotFound,
    InternalServerError,
    BadRequest,
    Unauthorized,
    Forbidden,
    NotAllowed,
}

/// The 3-digit decimal string of a status, as it appears on the wire.
pub open spec fn code_text(s: Status) -> Seq<char> {
    match s {
        Status::SwitchingProtocols => "101"@,
        Status::OK => "200"@,
        Status::SeeOther => "303"@,
        Status::BadRequest => "400"@,
        Status::Unauthorized => "401"@,
        Status::Forbidden => "403"@,
        Status::NotFound => "404"@,
        Status::NotAllowed => "405"@,
        Status::InternalServerError => "500"@,
    }
}

/// The status, if any, whose exact 3-digit decimal string is `t`.
pub open spec fn status_from_code_text(t: Seq<char>) -> Option<Status> {
    if t == "101"@ {
        Some(Status::SwitchingProtocols)
    } else if t == "200"@ {
        Some(Status::OK)
    } else if t == "303"@ {
        Some(Status::SeeOther)
    } else if t == "400"@ {
        Some(Status::BadRequest)
    } else if t == "401"@ {
        Some(Status::Unauthorized)
    } else if t == "403"@ {
        Some(Status::Forbidden)
    } else if t == "404"@ {
        Some(Status::NotFound)
    } else if t == "405"@ {
        Some(Status::NotAllowed)
    } else if t == "500"@ {
        Some(Status::InternalServerError)
    } else {
        None
    }
}

impl Status {
    /// The numeric value of the status code.
    pub open spec fn code_spec(self) -> u16 {
        match self {
            Status::SwitchingProtocols => 101,
            Status::OK => 200,
            Status::SeeOther => 303,
            Status::BadRequest => 400,
            Status::Unauthorized => 401,
            Status::Forbidden => 403,
            Status::NotFound => 404,
            Status::NotAllowed => 405,
            Status::InternalServerError => 500,
        }
    }

    /// The uppercase reason phrase of the status code.
    pub open spec fn message_spec(self) -> Seq<char> {
        match self {
            Status::SwitchingProtocols => "SWITCHING PROTOCOLS"@,
            Status::OK => "OK"@,
            Status::SeeOther => "SEE OTHER"@,
            Status::BadRequest => "BAD REQUEST"@,
            Status::Unauthorized => "UNAUTHORIZED"@,
            Status::Forbidden => "FORBIDDEN"@,
            Status::NotFound => "NOT FOUND"@,
            Status::NotAllowed => "NOT ALLOWED"@,
            Status::InternalServerError => "INTERNAL SERVER ERROR"@,
        }
    }

    /// The wire rendering of the status: its code in decimal, a space, and
    /// its reason phrase.
    pub open spec fn wire_text(self) -> Seq<char> {
        code_text(self) + " "@ + self.message_spec()
    }

    /// Get the numeric representation of the status code.
    pub fn code(&self) -> (c: u16)
        ensures
            c == self.code_spec(),
    {
        match self {
            Status::SwitchingProtocols => 101,
            Status::OK => 200,
            Status::SeeOther => 303,
            Status::BadRequest => 400,
            Status::Unauthorized => 401,
            Status::Forbidden => 403,
            Status::NotFound => 404,
            Status::NotAllowed => 405,
            Status::InternalServerError => 500,
        }
    }

    /// Get the status message.
    pub fn message(&self) -> (m: &'static str)
        ensures
            m@ == self.message_spec(),
    {
        match self {
            Status::SwitchingProtocols => "SWITCHING PROTOCOLS",
            Status::OK => "OK",
            Status::SeeOther => "SEE OTHER",
            Status::BadRequest => "BAD REQUEST",
            Status::Unauthorized => "UNAUTHORIZED",
            Status::Forbidden => "FORBIDDEN",
            Status::NotFound => "NOT FOUND",
            Status::NotAllowed => "NOT ALLOWED",
            Status::InternalServerError => "INTERNAL SERVER ERROR",
        }
    }

    /// Convert the `Status` to a valid http plaintext representation.
    pub fn to_string(&self) -> (r: String)
        ensures
            r@ == self.wire_text(),
    {
        proof {
            lemma_code_text_is_decimal(*self);
            reveal_strlit(" ");
        }
        let mut out = u64_to_string(self.code() as u64);
        out.append(" ");
        out.append(self.message());
        proof {
            assert(out@ =~= self.wire_text());
        }
        out
    }

    /// Parse a status from the exact 3-digit decimal string of a supported
    /// code; any other input fails with a parser error.
    pub fn from_str(code: &str) -> (r: Result<Status, Error>)
        ensures
            (match r {
                Ok(s) => status_from_code_text(code@) == Some(s),
                Err(e) => {
                    &&& status_from_code_text(code@) is None
                    &&& e.err_type == ErrorType::ParserError
                    &&& e.msg@ == "Invalid status format"@
                },
            }),
    {
        if str_eq(code, "101") {
            Ok(Status::SwitchingProtocols)
        } else if str_eq(code, "200") {
            Ok(Status::OK)
        } else if str_eq(code, "303") {
            Ok(Status::SeeOther)
        } else if str_eq(code, "400") {
            Ok(Status::BadRequest)
        } else if str_eq(code, "401") {
            Ok(Status::Unauthorized)
        } else if str_eq(code, "403") {
            Ok(Status::Forbidden)
        } else if str_eq(code, "404") {
            Ok(Status::NotFound)
        } else if str_eq(code, "405") {
            Ok(Status::NotAllowed)
        } else if str_eq(code, "500") {
            Ok(Status::InternalServerError)
        } else {
            Err(Error {
                err_type: ErrorType::ParserError,
                msg: "Invalid status format".to_owned(),
            })
        }
    }
}

/// No two statuses share a numeric code: the code table is injective.
pub proof fn lemma_code_injective(a: Status, b: Status)
    ensures
        a.code_spec() == b.code_spec() ==> a == b,
{
}

/// The wire string of each status starts with the decimal rendering of its
/// numeric code.
pub proof fn lemma_code_text_is_decimal(s: Status)
    ensures
        code_text(s) == dec_str(s.code_spec() as nat),
{
    reveal_strlit("101");
    reveal_strlit("200");
    reveal_strlit("303");
    reveal_strlit("400");
    reveal_strlit("401");
    reveal_strlit("403");
    reveal_strlit("404");
    reveal_strlit("405");
    reveal_strlit("500");
    reveal_with_fuel(dec_str, 4);
    match s {
        Status::SwitchingProtocols => assert(code_text(s) =~= dec_str(101)),
        Status::OK => assert(code_text(s) =~= dec_str(200)),
        Status::SeeOther => assert(code_text(s) =~= dec_str(303)),
        Status::BadRequest => assert(code_text(s) =~= dec_str(400)),
        Status::Unauthorized => assert(code_text(s) =~= dec_str(401)),
        Status::Forbidden => assert(code_text(s) =~= dec_str(403)),
        Status::NotFound => assert(code_text(s) =~= dec_str(404)),
        Status::NotAllowed => assert(code_text(s) =~= dec_str(405)),
        Status::InternalServerError => assert(code_text(s) =~= dec_str(500)),
    }
}

/// Status round-trip: parsing the code string of any supported status yields
/// that same status back.
pub proof fn lemma_status_round_trip(s: Status)
    ensures
        status_from_code_text(code_text(s)) == Some(s),
{
    reveal_strlit("101");
    reveal_strlit("200");
    reveal_strlit("303");
    reveal_strlit("400");
    reveal_strlit("401");
    reveal_strlit("403");
    reveal_strlit("404");
    reveal_strlit("405");
    reveal_strlit("500");
    assert("101"@ =~= seq!['1', '0', '1']);
    assert("200"@ =~= seq!['2', '0', '0']);
    assert("303"@ =~= seq!['3', '0', '3']);
    assert("400"@ =~= seq!['4', '0', '0']);
    assert("401"@ =~= seq!['4', '0', '1']);
    assert("403"@ =~= seq!['4', '0', '3']);
    assert("404"@ =~= seq!['4', '0', '4']);
    assert("405"@ =~= seq!['4', '0', '5']);
    assert("500"@ =~= seq!['5', '0', '0']);
}

/// Status round-trip through the full wire text: the first space of
/// `s.to_string()` stands right after the code string, so splitting the wire
/// text on its first space yields the code token, and parsing that token
/// gives `s` back.
pub proof fn lemma_status_wire_round_trip(s: Status)
    ensures
        find_pat(s.wire_text(), " "@) == code_text(s).len(),
        s.wire_text().subrange(0, code_text(s).len() as int) == code_text(s),
        status_from_code_text(s.wire_text().subrange(0, code_text(s).len() as int)) == Some(s),
{
    reveal_strlit(" ");
    reveal_strlit("101");
    reveal_strlit("200");
    reveal_strlit("303");
    reveal_strlit("400");
    reveal_strlit("401");
    reveal_strlit("403");
    reveal_strlit("404");
    reveal_strlit("405");
    reveal_strlit("500");
    assert forall|i: int| 0 <= i < code_text(s).len() implies code_text(s)[i] != ' ' by {
        match s {
            Status::SwitchingProtocols => assert(code_text(s)[i] != ' '),
            Status::OK => assert(code_text(s)[i] != ' '),
            Status::SeeOther => assert(code_text(s)[i] != ' '),
            Status::BadRequest => assert(code_text(s)[i] != ' '),
            Status::Unauthorized => assert(code_text(s)[i] != ' '),
            Status::Forbidden => assert(code_text(s)[i] != ' '),
            Status::NotFound => assert(code_text(s)[i] != ' '),
            Status::NotAllowed => assert(code_text(s)[i] != ' '),
            Status::InternalServerError => assert(code_text(s)[i] != ' '),
        }
    }
    lemma_find_single_after(code_text(s), " "@, s.message_spec());
    assert(s.wire_text().subrange(0, code_text(s).len() as int) =~= code_text(s));
    lemma_status_round_trip(s);
}

/// Neither the code string nor the reason phrase of any status holds a
/// carriage return or a line feed.
pub proof fn lemma_status_text_clean(s: Status)
    ensures
        forall|i: int| 0 <= i < code_text(s).len() ==> code_text(s)[i] != '\r' && code_text(s)[i]
            != '\n',
        forall|i: int| 0 <= i < s.message_spec().len() ==> s.message_spec()[i] != '\r'
            && s.message_spec()[i] != '\n',
{
    reveal_strlit("101");
    reveal_strlit("200");
    reveal_strlit("303");
    reveal_strlit("400");
    reveal_strlit("401");
    reveal_strlit("403");
    reveal_strlit("404");
    reveal_strlit("405");
    reveal_strlit("500");
    reveal_strlit("SWITCHING PROTOCOLS");
    reveal_strlit("OK");
    reveal_strlit("SEE OTHER");
    reveal_strlit("BAD REQUEST");
    reveal_strlit("UNAUTHORIZED");
    reveal_strlit("FORBIDDEN");
    reveal_strlit("NOT FOUND");
    reveal_strlit("NOT ALLOWED");
    reveal_strlit("INTERNAL SERVER ERROR");
}

} // verus!
