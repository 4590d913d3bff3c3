//! The media types that a response can declare.

use vstd::prelude::*;

use crate::text::str_eq;

verus! {

/// The media type of a response body.
#[derive(Clone, Copy, Debug, PartialEq, Eq, Structural)]
pub enum ContentType {
    PLAIN,
    JSON,
    OCTET,
}

impl ContentType {
    /// The name of the media type on the wire.
    pub open spec fn wire_name(self) -> Seq<char> {
        match self {
            ContentType::PLAIN => "text/plain"@,
            ContentType::JSON => "application/json"@,
            ContentType::OCTET => "application/octet-stream"@,
        }
    }

    /// The media type that `name` names, letter for letter, if it names one.
    pub open spec fn named(name: Seq<char>) -> Option<ContentType> {
        if name == "text/plain"@ {
            Some(ContentType::PLAIN)
        } else if name == "application/json"@ {
            Some(ContentType::JSON)
        } else if name == "application/octet-stream"@ {
            Some(ContentType::OCTET)
        } else {
            None
        }
    }

    /// Every media type is read back from its own name, and a name that reads
    /// as a media type is that type's name.
    pub proof fn lemma_name_round_trip(content_type: ContentType, name: Seq<char>)
        ensures
            ContentType::named(content_type.wire_name()) == Some(content_type),
            ContentType::named(name) == Some(content_type) <==> name == content_type.wire_name(),
    {
        reveal_strlit("text/plain");
        reveal_strlit("application/json");
        reveal_strlit("application/octet-stream");
        assert("text/plain"@.len() == 10);
        assert("application/json"@.len() == 16);
        assert("application/octet-stream"@.len() == 24);
    }

    /// The name of the media type on the wire.
    pub fn as_str(&self) -> (name: &'static str)
        ensures
            name@ == self.wire_name(),
    {
        match self {
            ContentType::PLAIN => "text/plain",
            ContentType::JSON => "application/json",
            ContentType::OCTET => "application/octet-stream",
        }
    }

    /// The media type that `content_type` names, or `None` for any other
    /// text.
    pub fn from_str(content_type: &str) -> (r: Option<ContentType>)
        ensures
            r == ContentType::named(content_type@),
    {
        if str_eq(content_type, "text/plain") {
            Some(ContentType::PLAIN)
        } else if str_eq(content_type, "application/json") {
            Some(ContentType::JSON)
        } else if str_eq(content_type, "application/octet-stream") {
            Some(ContentType::OCTET)
        } else {
            None
        }
    }
}

} // verus!
