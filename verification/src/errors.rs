//! The error taxonomy: the closed set of ways a ping can fail, each
//! with its exact message text.

use vstd::prelude::*;
use crate::addr::{Address, addr_text, dec_rep, push_decimal};

verus! {

/// One terminal failure of a ping invocation. `Timeout` carries the
/// timeout in whole seconds.
#[derive(Debug)]
pub enum Error {
    DestinationUnreachable(Address),
    InvalidAddress(String),
    NoResponse(Address),
    PrivilegeRequired,
    Timeout(Address, u64),
    Unknown(String),
}

/// The exact message each failure renders.
pub open spec fn error_text(e: Error) -> Seq<char> {
    match e {
        Error::DestinationUnreachable(a) => addr_text(a) + " is unreachable"@,
        Error::InvalidAddress(s) => s@ + " is not a valid address"@,
        Error::NoResponse(a) => "No response from "@ + addr_text(a),
        Error::PrivilegeRequired => "Permission denied"@,
        Error::Timeout(a, secs) => "Timeout connecting to "@ + addr_text(a) + " ("@ + dec_rep(
            secs as nat,
        ) + "s)"@,
        Error::Unknown(m) => "Unknown error: "@ + m@,
    }
}

impl Error {
    /// The message for this failure, exactly as the tool prints it.
    pub fn message(&self) -> (r: String)
        ensures
            r@ == error_text(*self),
    {
        match self {
            Error::DestinationUnreachable(a) => {
                proof {
                    reveal_strlit(" is unreachable");
                }
                let mut s = a.to_text();
                s.append(" is unreachable");
                proof {
                    assert(s@ =~= error_text(*self));
                }
                s
            },
            Error::InvalidAddress(input) => {
                proof {
                    reveal_strlit(" is not a valid address");
                }
                let mut s = input.clone();
                s.append(" is not a valid address");
                proof {
                    assert(s@ =~= error_text(*self));
                }
                s
            },
            Error::NoResponse(a) => {
                proof {
                    reveal_strlit("No response from ");
                }
                let mut s = String::from_str("No response from ");
                let t = a.to_text();
                s.append(t.as_str());
                proof {
                    assert(s@ =~= error_text(*self));
                }
                s
            },
            Error::PrivilegeRequired => {
                let s = String::from_str("Permission denied");
                proof {
                    assert(s@ =~= error_text(*self));
                }
                s
            },
            Error::Timeout(a, secs) => {
                proof {
                    reveal_strlit("Timeout connecting to ");
                    reveal_strlit(" (");
                    reveal_strlit("s)");
                }
                let mut s = String::from_str("Timeout connecting to ");
                let t = a.to_text();
                s.append(t.as_str());
                s.append(" (");
                push_decimal(&mut s, *secs);
                s.append("s)");
                proof {
                    assert(s@ =~= error_text(*self));
                }
                s
            },
            Error::Unknown(m) => {
                proof {
                    reveal_strlit("Unknown error: ");
                }
                let mut s = String::from_str("Unknown error: ");
                s.append(m.as_str());
                proof {
                    assert(s@ =~= error_text(*self));
                }
                s
            },
        }
    }
}

} // verus!
