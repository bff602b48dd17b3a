//! The ways in which a request fails.

use vstd::prelude::*;

verus! {

/// Why a request was not served.
#[derive(Debug, Clone, Copy, PartialEq, Eq, Structural)]
pub enum Fault {
    /// The registry could not be reached.
    StorageFault,
    /// No address is kept under the identity.
    NotFound,
    /// The identity is not the one that may publish.
    Unauthorized,
    /// The header stands for no identity.
    Malformed,
}

/// The status under which a fault is reported.
pub open spec fn status_of(fault: Fault) -> u16 {
    match fault {
        Fault::StorageFault => 500,
        Fault::NotFound => 404,
        Fault::Unauthorized => 401,
        Fault::Malformed => 400,
    }
}

/// The line of text that reports a fault.
pub open spec fn message_of(fault: Fault) -> Seq<char> {
    match fault {
        Fault::StorageFault => "Internal server error.\n"@,
        Fault::NotFound => "No IP found for that username\u{2013}password pair.\n"@,
        Fault::Unauthorized => "Unauthorized request.\n"@,
        Fault::Malformed => "Malformed credentials.\n"@,
    }
}

impl Fault {
    /// The status under which this fault is reported.
    pub fn status(&self) -> (code: u16)
        ensures
            code == status_of(*self),
    {
        match self {
            Fault::StorageFault => 500,
            Fault::NotFound => 404,
            Fault::Unauthorized => 401,
            Fault::Malformed => 400,
        }
    }

    /// The line of text that reports this fault.
    pub fn to_string(&self) -> (r: String)
        ensures
            r@ == message_of(*self),
    {
        match self {
            Fault::StorageFault => "Internal server error.\n".to_owned(),
            Fault::NotFound => "No IP found for that username\u{2013}password pair.\n".to_owned(),
            Fault::Unauthorized => "Unauthorized request.\n".to_owned(),
            Fault::Malformed => "Malformed credentials.\n".to_owned(),
        }
    }
}

} // verus!
