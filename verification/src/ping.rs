//! The ping orchestrator: the resolver's decision steps, the
//! classification of a received packet, the protocol state machine,
//! and the exact verbose trace lines.

use vstd::prelude::*;
use crate::addr::{Address, addr_text, dec_rep, push_decimal};
use crate::errors::Error;
use crate::parse::{parse_ip, spec_parse_ip};

verus! {

/// The ICMP echo-reply type value.
pub const ICMP_ECHO_REPLY: u8 = 0;

/// The ICMP destination-unreachable type value.
pub const ICMP_DEST_UNREACHABLE: u8 = 3;

/// The ICMP echo-request type value.
pub const ICMP_ECHO_REQUEST: u8 = 8;

/// The ICMP time-exceeded type value.
pub const ICMP_TIME_EXCEEDED: u8 = 11;

/// The resolved target of one ping: the address probed and the name
/// shown for it.
pub struct Target {
    pub resolved_ip: Address,
    pub display_host: String,
}

/// Builds the target for an input that parsed as an IP literal: the
/// reverse name when the lookup gave one, else the address's own text.
pub fn literal_target(ip: Address, reverse_name: Option<String>) -> (t: Target)
    ensures
        t.resolved_ip == ip,
        t.display_host@ == match reverse_name {
            Option::Some(n) => n@,
            Option::None => addr_text(ip),
        },
{
    match reverse_name {
        Option::Some(n) => Target { resolved_ip: ip, display_host: n },
        Option::None => Target { resolved_ip: ip, display_host: ip.to_text() },
    }
}

/// The candidate a forward lookup yields: its first address, if any.
pub fn first_address(ips: &Vec<Address>) -> (r: Option<Address>)
    ensures
        r == if ips@.len() > 0 {
            Option::Some(ips@[0])
        } else {
            Option::None::<Address>
        },
{
    if ips.len() > 0 {
        Some(ips[0])
    } else {
        None
    }
}

/// Decides the hostname branch of resolution from what the forward
/// lookup gave: a failed lookup, or an empty result set, fails with
/// the input judged invalid; otherwise the first address returned is
/// the candidate.
pub fn resolve_hostname_step(input: &str, lookup: Option<Vec<Address>>) -> (r: Result<
    Address,
    Error,
>)
    ensures
        match lookup {
            Option::None => (r matches Err(e) && e matches Error::InvalidAddress(s) && s@
                == input@),
            Option::Some(ips) => if ips@.len() == 0 {
                r matches Err(e) && e matches Error::InvalidAddress(s) && s@ == input@
            } else {
                r == Result::<Address, Error>::Ok(ips@[0])
            },
        },
{
    match lookup {
        Some(ips) => match first_address(&ips) {
            Some(candidate) => Ok(candidate),
            None => Err(Error::InvalidAddress(input.to_owned())),
        },
        None => Err(Error::InvalidAddress(input.to_owned())),
    }
}

/// Builds the target for an input resolved as a hostname. The reverse
/// name of the candidate is preferred when it itself parses as an IP
/// (the double-check step); the shown name is always the input.
pub fn hostname_target(input: &str, candidate: Address, reverse_name: Option<&str>) -> (t: Target)
    ensures
        t.display_host@ == input@,
        t.resolved_ip == match reverse_name {
            Option::Some(n) => if spec_parse_ip(n@) is Some {
                spec_parse_ip(n@).unwrap()
            } else {
                candidate
            },
            Option::None => candidate,
        },
{
    let ip = match reverse_name {
        Some(n) => match parse_ip(n) {
            Some(a) => a,
            None => candidate,
        },
        None => candidate,
    };
    Target { resolved_ip: ip, display_host: input.to_owned() }
}

/// The debug text of an unrecognized ICMP type, as the transport names
/// it.
pub open spec fn icmp_type_text(t: u8) -> Seq<char> {
    "IcmpType("@ + dec_rep(t as nat) + ")"@
}

/// The message stored for an unrecognized reply type.
pub open spec fn unknown_type_text(t: u8) -> Seq<char> {
    icmp_type_text(t) + " received"@
}

/// The debug text of an ICMP type value.
pub fn format_icmp_type(t: u8) -> (r: String)
    ensures
        r@ == icmp_type_text(t),
{
    proof {
        reveal_strlit("IcmpType(");
        reveal_strlit(")");
    }
    let mut s = String::from_str("IcmpType(");
    push_decimal(&mut s, t as u64);
    s.append(")");
    proof {
        assert(s@ =~= icmp_type_text(t));
    }
    s
}

/// What a reply of type `icmp_type` from `responder` decides, given
/// the shown host name `host`.
pub open spec fn classified(
    outcome: Result<(Address, String), Error>,
    icmp_type: u8,
    responder: Address,
    host: Seq<char>,
) -> bool {
    if icmp_type == ICMP_ECHO_REQUEST || icmp_type == ICMP_ECHO_REPLY {
        outcome matches Ok(ok) && ok.0 == responder && ok.1@ == host
    } else if icmp_type == ICMP_DEST_UNREACHABLE {
        outcome == Result::<(Address, String), Error>::Err(Error::DestinationUnreachable(responder))
    } else if icmp_type == ICMP_TIME_EXCEEDED {
        outcome == Result::<(Address, String), Error>::Err(Error::NoResponse(responder))
    } else {
        outcome matches Err(Error::Unknown(m)) && m@ == unknown_type_text(icmp_type)
    }
}

/// Classifies the first packet observed within the window: echo
/// request or reply means the responder is up; destination
/// unreachable, time exceeded and unrecognized types each map to
/// their own failure.
pub fn classify(icmp_type: u8, responder: Address, host: String) -> (r: Result<
    (Address, String),
    Error,
>)
    ensures
        classified(r, icmp_type, responder, host@),
{
    if icmp_type == ICMP_ECHO_REQUEST || icmp_type == ICMP_ECHO_REPLY {
        Ok((responder, host))
    } else if icmp_type == ICMP_DEST_UNREACHABLE {
        Err(Error::DestinationUnreachable(responder))
    } else if icmp_type == ICMP_TIME_EXCEEDED {
        Err(Error::NoResponse(responder))
    } else {
        proof {
            reveal_strlit(" received");
        }
        let mut s = format_icmp_type(icmp_type);
        s.append(" received");
        proof {
            assert(s@ =~= unknown_type_text(icmp_type));
        }
        Err(Error::Unknown(s))
    }
}

/// The trace line announcing a send.
pub open spec fn trace_pinging_text(ip: Address, host: Seq<char>) -> Seq<char> {
    "* Pinging "@ + addr_text(ip) + " ("@ + host + ") 32 bytes of data."@
}

/// The trace line announcing a send.
pub fn trace_pinging(ip: &Address, host: &str) -> (r: String)
    ensures
        r@ == trace_pinging_text(*ip, host@),
{
    proof {
        reveal_strlit("* Pinging ");
        reveal_strlit(" (");
        reveal_strlit(") 32 bytes of data.");
    }
    let mut s = String::from_str("* Pinging ");
    let t = ip.to_text();
    s.append(t.as_str());
    s.append(" (");
    s.append(host);
    s.append(") 32 bytes of data.");
    proof {
        assert(s@ =~= trace_pinging_text(*ip, host@));
    }
    s
}

/// The trace line for a transmission failure, `detail` being the I/O
/// error's text.
pub open spec fn trace_send_error_text(ip: Address, detail: Seq<char>) -> Seq<char> {
    "* Error connecting to "@ + addr_text(ip) + ": "@ + detail
}

/// The trace line for a transmission failure.
pub fn trace_send_error(ip: &Address, detail: &str) -> (r: String)
    ensures
        r@ == trace_send_error_text(*ip, detail@),
{
    proof {
        reveal_strlit("* Error connecting to ");
        reveal_strlit(": ");
    }
    let mut s = String::from_str("* Error connecting to ");
    let t = ip.to_text();
    s.append(t.as_str());
    s.append(": ");
    s.append(detail);
    proof {
        assert(s@ =~= trace_send_error_text(*ip, detail@));
    }
    s
}

/// The trace line for an elapsed timeout, `detail` being the
/// transport's own wording.
pub open spec fn trace_timeout_text(ip: Address, secs: u64, detail: Seq<char>) -> Seq<char> {
    "* Timeout connecting to "@ + addr_text(ip) + " ("@ + dec_rep(secs as nat) + "s): "@ + detail
}

/// The trace line for an elapsed timeout.
pub fn trace_timeout(ip: &Address, secs: u64, detail: &str) -> (r: String)
    ensures
        r@ == trace_timeout_text(*ip, secs, detail@),
{
    proof {
        reveal_strlit("* Timeout connecting to ");
        reveal_strlit(" (");
        reveal_strlit("s): ");
    }
    let mut s = String::from_str("* Timeout connecting to ");
    let t = ip.to_text();
    s.append(t.as_str());
    s.append(" (");
    push_decimal(&mut s, secs);
    s.append("s): ");
    s.append(detail);
    proof {
        assert(s@ =~= trace_timeout_text(*ip, secs, detail@));
    }
    s
}

/// The trace line for a packet that could not be read.
pub open spec fn trace_read_error_text(ip: Address, detail: Seq<char>) -> Seq<char> {
    "* Error reading data from "@ + addr_text(ip) + ": "@ + detail
}

/// The trace line for a packet that could not be read.
pub fn trace_read_error(ip: &Address, detail: &str) -> (r: String)
    ensures
        r@ == trace_read_error_text(*ip, detail@),
{
    proof {
        reveal_strlit("* Error reading data from ");
        reveal_strlit(": ");
    }
    let mut s = String::from_str("* Error reading data from ");
    let t = ip.to_text();
    s.append(t.as_str());
    s.append(": ");
    s.append(detail);
    proof {
        assert(s@ =~= trace_read_error_text(*ip, detail@));
    }
    s
}

/// The trace line for a responder that answered.
pub open spec fn trace_up_text(ip: Address) -> Seq<char> {
    "* "@ + addr_text(ip) + " is up!"@
}

/// The trace line for a responder that answered.
pub fn trace_up(ip: &Address) -> (r: String)
    ensures
        r@ == trace_up_text(*ip),
{
    proof {
        reveal_strlit("* ");
        reveal_strlit(" is up!");
    }
    let mut s = String::from_str("* ");
    let t = ip.to_text();
    s.append(t.as_str());
    s.append(" is up!");
    proof {
        assert(s@ =~= trace_up_text(*ip));
    }
    s
}

/// The trace line for a destination-unreachable reply.
pub open spec fn trace_unreachable_text(ip: Address) -> Seq<char> {
    "* "@ + addr_text(ip) + " is unreachable"@
}

/// The trace line for a destination-unreachable reply.
pub fn trace_unreachable(ip: &Address) -> (r: String)
    ensures
        r@ == trace_unreachable_text(*ip),
{
    proof {
        reveal_strlit("* ");
        reveal_strlit(" is unreachable");
    }
    let mut s = String::from_str("* ");
    let t = ip.to_text();
    s.append(t.as_str());
    s.append(" is unreachable");
    proof {
        assert(s@ =~= trace_unreachable_text(*ip));
    }
    s
}

/// The trace line for a time-exceeded reply.
pub open spec fn trace_time_exceeded_text(ip: Address, secs: u64) -> Seq<char> {
    "* Timeout connecting to "@ + addr_text(ip) + " ("@ + dec_rep(secs as nat) + "s)"@
}

/// The trace line for a time-exceeded reply.
pub fn trace_time_exceeded(ip: &Address, secs: u64) -> (r: String)
    ensures
        r@ == trace_time_exceeded_text(*ip, secs),
{
    proof {
        reveal_strlit("* Timeout connecting to ");
        reveal_strlit(" (");
        reveal_strlit("s)");
    }
    let mut s = String::from_str("* Timeout connecting to ");
    let t = ip.to_text();
    s.append(t.as_str());
    s.append(" (");
    push_decimal(&mut s, secs);
    s.append("s)");
    proof {
        assert(s@ =~= trace_time_exceeded_text(*ip, secs));
    }
    s
}

/// The trace line for an unrecognized reply type.
pub open spec fn trace_unknown_text(ip: Address, icmp_type: u8) -> Seq<char> {
    "* Unknown ICMP packet received from "@ + addr_text(ip) + ": "@ + icmp_type_text(icmp_type)
}

/// The trace line for an unrecognized reply type.
pub fn trace_unknown(ip: &Address, icmp_type: u8) -> (r: String)
    ensures
        r@ == trace_unknown_text(*ip, icmp_type),
{
    proof {
        reveal_strlit("* Unknown ICMP packet received from ");
        reveal_strlit(": ");
    }
    let mut s = String::from_str("* Unknown ICMP packet received from ");
    let t = ip.to_text();
    s.append(t.as_str());
    s.append(": ");
    let ty = format_icmp_type(icmp_type);
    s.append(ty.as_str());
    proof {
        assert(s@ =~= trace_unknown_text(*ip, icmp_type));
    }
    s
}

/// Where one ping invocation stands.
pub enum PingState {
    /// Resolving the input to a target.
    Resolving,
    /// Opening the raw channel for the target's family.
    OpeningChannel { target: Target },
    /// Building and transmitting the echo request.
    Sending { target: Target },
    /// Waiting, up to the timeout, for a packet.
    AwaitingReply { target: Target },
    /// The terminal outcome.
    Finished { outcome: Result<(Address, String), Error> },
}

/// What the world reported back for the step the state asked for.
pub enum PingEvent {
    /// The resolver produced a target.
    ResolvedOk { target: Target },
    /// The input neither parsed nor resolved; it is carried verbatim.
    ResolveFailed { input: String },
    /// The raw channel opened.
    ChannelOpened,
    /// The raw channel was refused for want of privilege.
    ChannelDenied,
    /// The echo request went out.
    SendSucceeded,
    /// Transmission failed; the I/O error's text is carried.
    SendFailed { detail: String },
    /// A packet arrived before the timeout.
    ReplyReceived { icmp_type: u8, responder: Address },
    /// The timeout elapsed with no packet.
    ReceiveTimedOut,
    /// A packet arrived but could not be read.
    ReceiveFailed,
}

/// Which events can answer which states.
pub open spec fn event_fits(s: PingState, e: PingEvent) -> bool {
    match s {
        PingState::Resolving => e is ResolvedOk || e is ResolveFailed,
        PingState::OpeningChannel { .. } => e is ChannelOpened || e is ChannelDenied,
        PingState::Sending { .. } => e is SendSucceeded || e is SendFailed,
        PingState::AwaitingReply { .. } => e is ReplyReceived || e is ReceiveTimedOut
            || e is ReceiveFailed,
        PingState::Finished { .. } => false,
    }
}

/// The transition the protocol prescribes for `state` on `event`,
/// with `timeout_secs` the caller's whole-second timeout: resolution
/// failure, denial of privilege, a send error, the timeout and a read
/// error each end the run with their own error, and a received packet
/// ends it with its classification.
pub open spec fn stepped(
    state: PingState,
    event: PingEvent,
    timeout_secs: u64,
    next: PingState,
) -> bool {
    match (state, event) {
        (PingState::Resolving, PingEvent::ResolvedOk { target }) => next
            == (PingState::OpeningChannel { target }),
        (PingState::Resolving, PingEvent::ResolveFailed { input }) => next
            == (PingState::Finished { outcome: Err(Error::InvalidAddress(input)) }),
        (PingState::OpeningChannel { target }, PingEvent::ChannelOpened) => next
            == (PingState::Sending { target }),
        (PingState::OpeningChannel { .. }, PingEvent::ChannelDenied) => next
            == (PingState::Finished { outcome: Err(Error::PrivilegeRequired) }),
        (PingState::Sending { target }, PingEvent::SendSucceeded) => next
            == (PingState::AwaitingReply { target }),
        (PingState::Sending { .. }, PingEvent::SendFailed { detail }) => next
            == (PingState::Finished { outcome: Err(Error::Unknown(detail)) }),
        (PingState::AwaitingReply { target }, PingEvent::ReceiveTimedOut) => next
            == (PingState::Finished {
            outcome: Err(Error::Timeout(target.resolved_ip, timeout_secs)),
        }),
        (PingState::AwaitingReply { target }, PingEvent::ReceiveFailed) => next
            == (PingState::Finished { outcome: Err(Error::NoResponse(target.resolved_ip)) }),
        (PingState::AwaitingReply { target }, PingEvent::ReplyReceived { icmp_type, responder }) => (
        next matches PingState::Finished { outcome } && classified(
            outcome,
            icmp_type,
            responder,
            target.display_host@,
        )),
        _ => false,
    }
}

/// Advances the protocol by one step.
pub fn step(state: PingState, event: PingEvent, timeout_secs: u64) -> (next: PingState)
    requires
        event_fits(state, event),
    ensures
        stepped(state, event, timeout_secs, next),
{
    match (state, event) {
        (PingState::Resolving, PingEvent::ResolvedOk { target }) => PingState::OpeningChannel {
            target,
        },
        (PingState::Resolving, PingEvent::ResolveFailed { input }) => PingState::Finished {
            outcome: Err(Error::InvalidAddress(input)),
        },
        (PingState::OpeningChannel { target }, PingEvent::ChannelOpened) => PingState::Sending {
            target,
        },
        (PingState::OpeningChannel { .. }, PingEvent::ChannelDenied) => PingState::Finished {
            outcome: Err(Error::PrivilegeRequired),
        },
        (PingState::Sending { target }, PingEvent::SendSucceeded) => PingState::AwaitingReply {
            target,
        },
        (PingState::Sending { .. }, PingEvent::SendFailed { detail }) => PingState::Finished {
            outcome: Err(Error::Unknown(detail)),
        },
        (PingState::AwaitingReply { target }, PingEvent::ReceiveTimedOut) => PingState::Finished {
            outcome: Err(Error::Timeout(target.resolved_ip, timeout_secs)),
        },
        (PingState::AwaitingReply { target }, PingEvent::ReceiveFailed) => PingState::Finished {
            outcome: Err(Error::NoResponse(target.resolved_ip)),
        },
        (
            PingState::AwaitingReply { target },
            PingEvent::ReplyReceived { icmp_type, responder },
        ) => PingState::Finished { outcome: classify(icmp_type, responder, target.display_host) },
        _ => vstd::pervasive::unreached(),
    }
}

} // verus!
