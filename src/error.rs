use vstd::prelude::*;

verus! {

/// Recoverable failures reported by the kernel core.
#[derive(Clone, Copy, Debug, PartialEq, Eq, Structural)]
pub enum Errno {
    MalformedBinary,
    NotFound,
    TooManySymlinks,
    AlreadyMounted,
    BadDescriptor,
    ResourceExhausted,
    NoSuchSyscall,
}

/// The negative return code of each failure kind.
pub open spec fn errno_code(e: Errno) -> int {
    match e {
        Errno::MalformedBinary => -8,
        Errno::NotFound => -2,
        Errno::TooManySymlinks => -40,
        Errno::AlreadyMounted => -16,
        Errno::BadDescriptor => -9,
        Errno::ResourceExhausted => -24,
        Errno::NoSuchSyscall => -38,
    }
}

impl Errno {
    /// The signed return value that a system call reports for this failure.
    pub fn to_code(self) -> (r: isize)
        ensures
            r == errno_code(self),
            r < 0,
    {
        match self {
            Errno::MalformedBinary => -8,
            Errno::NotFound => -2,
            Errno::TooManySymlinks => -40,
            Errno::AlreadyMounted => -16,
            Errno::BadDescriptor => -9,
            Errno::ResourceExhausted => -24,
            Errno::NoSuchSyscall => -38,
        }
    }
}

/// Distinct failure kinds have distinct codes.
pub proof fn lemma_errno_codes_distinct(a: Errno, b: Errno)
    ensures
        errno_code(a) == errno_code(b) ==> a == b,
        errno_code(a) < 0,
{
}

} // verus!
