//! The error taxonomy of the commit protocol.

use vstd::prelude::*;

verus! {

/// A failure surfaced by the commit or retrieve protocol.
///
/// `BadCallback` and `BadData` are raised by this crate itself; every other
/// variant is the lossless translation of a non-zero status code returned by
/// the host's store callback.
#[derive(Debug, Clone, Copy, PartialEq, Eq, Structural)]
pub enum StateErr {
    /// The host did not supply the required callback.
    BadCallback,
    /// A drafted buffer could not be validated as an encoded property.
    BadData,
    /// The host reported a failure outside the known status codes.
    Unknown,
    /// The host rejected the value's type identifier.
    BadType,
    /// The host rejected the flag bitmask.
    BadFlags,
    /// The host is missing a feature it needs to honour the call.
    NoFeature,
    /// The host has no such property.
    NoProperty,
    /// The host ran out of storage space.
    NoSpace,
}

impl StateErr {
    /// The meaning of a host status code: zero is success, each known
    /// non-zero code names one failure kind, everything else is `Unknown`.
    pub open spec fn spec_from(status: u32) -> Result<(), StateErr> {
        if status == 0 {
            Ok(())
        } else if status == 2 {
            Err(StateErr::BadType)
        } else if status == 3 {
            Err(StateErr::BadFlags)
        } else if status == 4 {
            Err(StateErr::NoFeature)
        } else if status == 5 {
            Err(StateErr::NoProperty)
        } else if status == 6 {
            Err(StateErr::NoSpace)
        } else {
            Err(StateErr::Unknown)
        }
    }

    /// Translate the raw status integer returned by a host store callback.
    pub fn from(status: u32) -> (r: Result<(), StateErr>)
        ensures
            r == StateErr::spec_from(status),
    {
        match status {
            0 => Ok(()),
            2 => Err(StateErr::BadType),
            3 => Err(StateErr::BadFlags),
            4 => Err(StateErr::NoFeature),
            5 => Err(StateErr::NoProperty),
            6 => Err(StateErr::NoSpace),
            _ => Err(StateErr::Unknown),
        }
    }

    /// Whether this failure kind is one a host callback can report.
    pub open spec fn is_host_err(self) -> bool {
        self != StateErr::BadCallback && self != StateErr::BadData
    }
}

} // verus!
