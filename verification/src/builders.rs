//! Address-info request description: the fields a caller fixes before
//! asking the resolver for candidate addresses, with a small builder that
//! fills in the customary defaults.

use vstd::prelude::*;
use crate::types::{Family, Flag, SocketType};

verus! {

/// What to ask the address resolver for: family, socket type and flags.
#[derive(Debug, Clone, Copy, PartialEq, Eq, Structural)]
pub struct AddrInfo {
    pub family: Family,
    pub socktype: SocketType,
    pub flags: Flag,
}

impl AddrInfo {
    /// Starts a builder with the customary defaults: unspecified family,
    /// stream socket, no flags.
    pub fn builder() -> (b: AddrInfoBuilder)
        ensures
            b.family is Unspecified,
            b.socktype is Stream,
            b.flags is NoFlags,
    {
        AddrInfoBuilder {
            family: Family::Unspecified,
            socktype: SocketType::Stream,
            flags: Flag::NoFlags,
        }
    }

    /// Lowers the request to the raw codes of the C socket API, in the
    /// order (family, socket type, flags).
    pub fn into(self) -> (raw: (i32, i32, i32))
        ensures
            raw.0 == self.family.code(),
            raw.1 == self.socktype.code(),
            raw.2 == self.flags.code(),
    {
        (self.family.into(), self.socktype.into(), self.flags.into())
    }
}

/// Builder for [`AddrInfo`]; each setter replaces one field.
#[derive(Debug, Clone, Copy, PartialEq, Eq, Structural)]
pub struct AddrInfoBuilder {
    pub family: Family,
    pub socktype: SocketType,
    pub flags: Flag,
}

impl AddrInfoBuilder {
    /// Chooses the address family.
    pub fn family(self, family: Family) -> (b: AddrInfoBuilder)
        ensures
            b == (AddrInfoBuilder { family, ..self }),
    {
        AddrInfoBuilder { family, ..self }
    }

    /// Chooses the socket type.
    pub fn socktype(self, socktype: SocketType) -> (b: AddrInfoBuilder)
        ensures
            b == (AddrInfoBuilder { socktype, ..self }),
    {
        AddrInfoBuilder { socktype, ..self }
    }

    /// Chooses the flags.
    pub fn flags(self, flags: Flag) -> (b: AddrInfoBuilder)
        ensures
            b == (AddrInfoBuilder { flags, ..self }),
    {
        AddrInfoBuilder { flags, ..self }
    }

    /// Finishes the build.
    pub fn build(self) -> (a: AddrInfo)
        ensures
            a.family == self.family,
            a.socktype == self.socktype,
            a.flags == self.flags,
    {
        AddrInfo { family: self.family, socktype: self.socktype, flags: self.flags }
    }
}

} // verus!
