//! Error values of the codec.

use vstd::prelude::*;
use vstd::string::*;

verus! {

/// Reasons that parsing or encoding might fail.
#[derive(Debug, Clone, Copy, PartialEq, Eq, Structural)]
pub enum Reason {
    /// Container or sequence was too big to serialize.
    TooBig,
    /// Extra items remained after deserializing a sequence.
    ExtraItems,
    /// A container came without a size where one is needed in advance.
    Unsized,
    /// Invalid value encountered.
    BadValue,
    /// Reached end of a stream.
    EndOfStream,
    /// Invalid type encountered.
    BadType,
    /// Invalid length encountered.
    BadLength,
    /// Encountered an unknown enum variant.
    BadVariant,
    /// Unknown field included in struct.
    BadField,
    /// Missing field from struct.
    NoField,
    /// Duplicate field found in struct.
    DupField,
    /// Error decoding UTF8 string.
    UTF8Error,
    /// Some other error that does not fit into the above.
    Other,
}

/// The headline that a reason is reported under.
pub open spec fn reason_name(reason: Reason) -> Seq<char> {
    match reason {
        Reason::TooBig => "Overflowing value"@,
        Reason::ExtraItems => "More items that expected"@,
        Reason::Unsized => "Unsized value"@,
        Reason::BadValue => "Invalid value"@,
        Reason::EndOfStream => "End of stream"@,
        Reason::BadType => "Invalid type"@,
        Reason::BadLength => "Invalid length"@,
        Reason::BadVariant => "Unknown variant"@,
        Reason::BadField => "Unknown field"@,
        Reason::NoField => "Missing field"@,
        Reason::DupField => "Duplicate field"@,
        Reason::UTF8Error => "UTF-8 encoding error"@,
        Reason::Other => "Other error"@,
    }
}

/// What an error reads as: the headline alone, or the headline, a colon
/// and the detail where there is one.
pub open spec fn error_text(reason: Reason, detail: Seq<char>) -> Seq<char> {
    if detail.len() == 0 {
        reason_name(reason)
    } else {
        reason_name(reason) + ": "@ + detail
    }
}

/// An error of the codec: a reason, a free-form detail and, where the error
/// wraps another one, its cause.
#[derive(Debug)]
pub struct Error {
    reason: Reason,
    detail: String,
    cause: Option<Box<Error>>,
}

impl Error {
    pub closed spec fn spec_reason(&self) -> Reason {
        self.reason
    }

    pub closed spec fn spec_detail(&self) -> Seq<char> {
        self.detail@
    }

    pub closed spec fn spec_cause(&self) -> Option<Error> {
        match self.cause {
            Some(inner) => Some(*inner),
            None => None,
        }
    }

    /// Wrap an error in a new error, for context.
    pub fn chain(reason: Reason, detail: String, cause: Option<Box<Error>>) -> (e: Error)
        ensures
            e.reason() == reason,
            e.spec_detail() == detail@,
            e.spec_cause() == (match cause {
                Some(inner) => Some(*inner),
                None => None,
            }),
    {
        Error { reason, detail, cause }
    }

    /// Create a new error without chaining a cause.
    pub fn new(reason: Reason, detail: String) -> (e: Error)
        ensures
            e.reason() == reason,
            e.spec_detail() == detail@,
            e.spec_cause() is None,
    {
        Error::chain(reason, detail, None)
    }

    /// Create a new error from just a reason.
    pub fn simple(reason: Reason) -> (e: Error)
        ensures
            e.reason() == reason,
            e.spec_detail() == Seq::<char>::empty(),
            e.spec_cause() is None,
    {
        Error::new(reason, String::new())
    }

    /// The category of the failure.
    #[verifier::when_used_as_spec(spec_reason)]
    pub fn reason(&self) -> (r: Reason)
        ensures
            r == self.spec_reason(),
    {
        self.reason
    }

    /// The free-form text given with the error; empty where none was given.
    pub fn detail(&self) -> (d: &str)
        ensures
            d@ == self.spec_detail(),
    {
        self.detail.as_str()
    }

    /// The error that this one wraps, if any.
    pub fn cause(&self) -> (c: Option<&Error>)
        ensures
            match c {
                Some(inner) => self.spec_cause() == Some(*inner),
                None => self.spec_cause() is None,
            },
    {
        match &self.cause {
            Some(inner) => Some(&**inner),
            None => None,
        }
    }

    /// A fixed description shared by every error of the codec.
    pub fn description(&self) -> (d: &'static str)
        ensures
            d@ == "Corepack error"@,
    {
        "Corepack error"
    }

    /// The text shown for the error.
    pub fn message(&self) -> (text: String)
        ensures
            text@ == error_text(self.reason(), self.spec_detail()),
    {
        let name = match self.reason {
            Reason::TooBig => "Overflowing value",
            Reason::ExtraItems => "More items that expected",
            Reason::Unsized => "Unsized value",
            Reason::BadValue => "Invalid value",
            Reason::EndOfStream => "End of stream",
            Reason::BadType => "Invalid type",
            Reason::BadLength => "Invalid length",
            Reason::BadVariant => "Unknown variant",
            Reason::BadField => "Unknown field",
            Reason::NoField => "Missing field",
            Reason::DupField => "Duplicate field",
            Reason::UTF8Error => "UTF-8 encoding error",
            Reason::Other => "Other error",
        };
        let mut text = String::from_str(name);
        if !self.detail.as_str().is_empty() {
            text.append(": ");
            text.append(self.detail.as_str());
        }
        text
    }
}

} // verus!
