//! The request methods that the server knows, and their names on the wire.

use vstd::prelude::*;

use crate::text::str_eq;

verus! {

/// A request method. A token that names none of these is no method: reading
/// it fails.
#[derive(Clone, Copy, Debug, PartialEq, Eq, Structural)]
pub enum HTTPMethod {
    GET,
    POST,
    PUT,
    DELETE,
}

impl HTTPMethod {
    /// The name of the method on the wire.
    pub open spec fn wire_name(self) -> Seq<char> {
        match self {
            HTTPMethod::GET => "GET"@,
            HTTPMethod::POST => "POST"@,
            HTTPMethod::PUT => "PUT"@,
            HTTPMethod::DELETE => "DELETE"@,
        }
    }

    /// The method that `name` names, letter for letter, if it names one.
    pub open spec fn named(name: Seq<char>) -> Option<HTTPMethod> {
        if name == "GET"@ {
            Some(HTTPMethod::GET)
        } else if name == "PUT"@ {
            Some(HTTPMethod::PUT)
        } else if name == "POST"@ {
            Some(HTTPMethod::POST)
        } else if name == "DELETE"@ {
            Some(HTTPMethod::DELETE)
        } else {
            None
        }
    }

    /// Every method is read back from its own name, and a name that reads as
    /// a method is that method's name.
    pub proof fn lemma_name_round_trip(method: HTTPMethod, name: Seq<char>)
        ensures
            HTTPMethod::named(method.wire_name()) == Some(method),
            HTTPMethod::named(name) == Some(method) <==> name == method.wire_name(),
    {
        reveal_strlit("GET");
        reveal_strlit("PUT");
        reveal_strlit("POST");
        reveal_strlit("DELETE");
        assert("GET"@.len() == 3 && "GET"@[0] == 'G');
        assert("PUT"@.len() == 3 && "PUT"@[0] == 'P');
        assert("POST"@.len() == 4);
        assert("DELETE"@.len() == 6);
    }

    /// The name of the method on the wire.
    pub fn as_str(&self) -> (name: &'static str)
        ensures
            name@ == self.wire_name(),
    {
        match self {
            HTTPMethod::GET => "GET",
            HTTPMethod::POST => "POST",
            HTTPMethod::PUT => "PUT",
            HTTPMethod::DELETE => "DELETE",
        }
    }

    /// The method that `method` names, or `None` for any other token. The
    /// comparison is exact: no case folding, no trimming.
    pub fn from_str(method: &str) -> (r: Option<HTTPMethod>)
        ensures
            r == HTTPMethod::named(method@),
    {
        if str_eq(method, "GET") {
            Some(HTTPMethod::GET)
        } else if str_eq(method, "PUT") {
            Some(HTTPMethod::PUT)
        } else if str_eq(method, "POST") {
            Some(HTTPMethod::POST)
        } else if str_eq(method, "DELETE") {
            Some(HTTPMethod::DELETE)
        } else {
            None
        }
    }
}

} // verus!
