//! Error numbers that differ from one processor architecture to another.
use vstd::prelude::*;

verus! {

/// The error numbers that decisions depend on and that are not the same on every
/// Linux system. Those up to 34 are the same everywhere and are constants.
#[derive(Debug, Clone, Copy, PartialEq, Eq, Structural)]
pub struct ErrorNumbers {
    /// "Operation now in progress": a connection attempt is under way.
    pub einprogress: i32,
    /// "Connection refused".
    pub econnrefused: i32,
    /// "No buffer space": events were lost.
    pub enobufs: i32,
    /// "Function not implemented".
    pub enosys: i32,
    /// "Operation not supported".
    pub eopnotsupp: i32,
    /// "Address family not supported".
    pub eafnosupport: i32,
}

/// The constants `EINPROGRESS`, `ECONNREFUSED`, `ENOBUFS`, `ENOSYS`, `EOPNOTSUPP`
/// and `EAFNOSUPPORT` of the crate `libc`, each in the field of its name. They
/// are those of the machine that the program is built for, so nothing is claimed
/// of them.
#[verifier::external_body]
fn libc_numbers() -> ErrorNumbers {
    ErrorNumbers {
        einprogress: libc::EINPROGRESS,
        econnrefused: libc::ECONNREFUSED,
        enobufs: libc::ENOBUFS,
        enosys: libc::ENOSYS,
        eopnotsupp: libc::EOPNOTSUPP,
        eafnosupport: libc::EAFNOSUPPORT,
    }
}

impl ErrorNumbers {
    /// The error numbers of this machine. Which ones these are depends on the
    /// machine alone, so nothing is stated of the result.
    pub fn native() -> ErrorNumbers {
        libc_numbers()
    }
}

} // verus!
