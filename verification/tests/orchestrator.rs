use pinger::{
    classify, first_address, hostname_target, literal_target, parse_ip, resolve_hostname_step,
    step, trace_pinging,
    trace_read_error, trace_send_error, trace_time_exceeded, trace_timeout, trace_unknown,
    trace_unreachable, trace_up, Address, Error, PingEvent, PingState, Target,
};

fn loopback() -> Address {
    Address::V4(127, 0, 0, 1)
}

#[test]
fn literal_target_prefers_reverse_name() {
    let t = literal_target(loopback(), Some("localhost".to_owned()));
    assert_eq!(t.resolved_ip, loopback());
    assert_eq!(t.display_host, "localhost");
}

#[test]
fn literal_target_falls_back_to_address_text() {
    let t = literal_target(loopback(), None);
    assert_eq!(t.resolved_ip, loopback());
    assert_eq!(t.display_host, "127.0.0.1");
}

#[test]
fn hostname_target_double_checks_reverse_name() {
    let candidate = Address::V4(93, 184, 216, 34);
    // A reverse name that parses as an IP replaces the candidate.
    let t = hostname_target("example.com", candidate, Some("10.0.0.7"));
    assert_eq!(t.resolved_ip, Address::V4(10, 0, 0, 7));
    assert_eq!(t.display_host, "example.com");
    // One that does not leaves the candidate standing.
    let t = hostname_target("example.com", candidate, Some("edge.example.net"));
    assert_eq!(t.resolved_ip, candidate);
    assert_eq!(t.display_host, "example.com");
    // So does a missing reverse name.
    let t = hostname_target("example.com", candidate, None);
    assert_eq!(t.resolved_ip, candidate);
    assert_eq!(t.display_host, "example.com");
}

#[test]
fn first_address_takes_the_head() {
    assert_eq!(first_address(&vec![]), None);
    let ips = vec![loopback(), Address::V4(10, 0, 0, 1)];
    assert_eq!(first_address(&ips), Some(loopback()));
}

#[test]
fn hostname_step_fails_without_addresses() {
    match resolve_hostname_step("nosuch.invalid", None) {
        Err(Error::InvalidAddress(s)) => assert_eq!(s, "nosuch.invalid"),
        _ => panic!("expected an invalid-address failure"),
    }
    match resolve_hostname_step("nosuch.invalid", Some(vec![])) {
        Err(Error::InvalidAddress(s)) => assert_eq!(s, "nosuch.invalid"),
        _ => panic!("expected an invalid-address failure"),
    }
    assert!(matches!(
        resolve_hostname_step("example.com", Some(vec![loopback()])),
        Ok(a) if a == loopback()
    ));
}

#[test]
fn classify_each_reply_type() {
    let ip = Address::V4(1, 1, 1, 1);
    assert!(matches!(
        classify(0, ip, "one.one.one.one".to_owned()),
        Ok((a, h)) if a == ip && h == "one.one.one.one"
    ));
    assert!(matches!(
        classify(8, ip, "one.one.one.one".to_owned()),
        Ok((a, _)) if a == ip
    ));
    assert!(matches!(
        classify(3, ip, "h".to_owned()),
        Err(Error::DestinationUnreachable(a)) if a == ip
    ));
    assert!(matches!(
        classify(11, ip, "h".to_owned()),
        Err(Error::NoResponse(a)) if a == ip
    ));
    match classify(42, ip, "h".to_owned()) {
        Err(Error::Unknown(m)) => assert_eq!(m, "IcmpType(42) received"),
        other => panic!("expected an unknown-type error, got {:?}", other.is_ok()),
    }
}

fn target_for(ip: Address, host: &str) -> Target {
    Target {
        resolved_ip: ip,
        display_host: host.to_owned(),
    }
}

#[test]
fn run_ends_in_success_on_echo_reply() {
    let mut state = PingState::Resolving;
    state = step(
        state,
        PingEvent::ResolvedOk {
            target: target_for(loopback(), "localhost"),
        },
        1,
    );
    assert!(matches!(state, PingState::OpeningChannel { .. }));
    state = step(state, PingEvent::ChannelOpened, 1);
    assert!(matches!(state, PingState::Sending { .. }));
    state = step(state, PingEvent::SendSucceeded, 1);
    assert!(matches!(state, PingState::AwaitingReply { .. }));
    state = step(
        state,
        PingEvent::ReplyReceived {
            icmp_type: 0,
            responder: loopback(),
        },
        1,
    );
    match state {
        PingState::Finished { outcome: Ok((ip, host)) } => {
            assert_eq!(ip, loopback());
            assert_eq!(host, "localhost");
        }
        _ => panic!("expected a finished, successful run"),
    }
}

#[test]
fn resolution_failure_carries_the_input() {
    assert_eq!(parse_ip("1.2.3.456"), None);
    let state = step(
        PingState::Resolving,
        PingEvent::ResolveFailed {
            input: "1.2.3.456".to_owned(),
        },
        1,
    );
    match state {
        PingState::Finished { outcome: Err(e) } => {
            assert_eq!(e.message(), "1.2.3.456 is not a valid address")
        }
        _ => panic!("expected a finished, failed run"),
    }
}

#[test]
fn channel_denial_reports_missing_privilege() {
    let state = step(
        PingState::OpeningChannel {
            target: target_for(loopback(), "localhost"),
        },
        PingEvent::ChannelDenied,
        1,
    );
    match state {
        PingState::Finished { outcome: Err(e) } => assert_eq!(e.message(), "Permission denied"),
        _ => panic!("expected a finished, failed run"),
    }
}

#[test]
fn elapsed_timeout_is_a_timeout_error() {
    let state = step(
        PingState::AwaitingReply {
            target: target_for(Address::V4(10, 255, 255, 1), "10.255.255.1"),
        },
        PingEvent::ReceiveTimedOut,
        1,
    );
    match state {
        PingState::Finished { outcome: Err(Error::Timeout(ip, secs)) } => {
            assert_eq!(ip, Address::V4(10, 255, 255, 1));
            assert_eq!(secs, 1);
            assert_eq!(
                Error::Timeout(ip, secs).message(),
                "Timeout connecting to 10.255.255.1 (1s)"
            );
        }
        _ => panic!("expected a timeout"),
    }
}

#[test]
fn unreadable_packet_is_no_response() {
    let state = step(
        PingState::AwaitingReply {
            target: target_for(loopback(), "localhost"),
        },
        PingEvent::ReceiveFailed,
        1,
    );
    match state {
        PingState::Finished { outcome: Err(e) } => {
            assert_eq!(e.message(), "No response from 127.0.0.1")
        }
        _ => panic!("expected a failure"),
    }
}

#[test]
fn send_failure_is_unknown_error() {
    let state = step(
        PingState::Sending {
            target: target_for(loopback(), "localhost"),
        },
        PingEvent::SendFailed {
            detail: "broken pipe".to_owned(),
        },
        1,
    );
    match state {
        PingState::Finished { outcome: Err(e) } => {
            assert_eq!(e.message(), "Unknown error: broken pipe")
        }
        _ => panic!("expected a failure"),
    }
}

#[test]
fn trace_lines_render_exactly() {
    let ip = Address::V4(1, 1, 1, 1);
    assert_eq!(
        trace_pinging(&ip, "one.one.one.one"),
        "* Pinging 1.1.1.1 (one.one.one.one) 32 bytes of data."
    );
    assert_eq!(
        trace_timeout(&ip, 20, "resource temporarily unavailable"),
        "* Timeout connecting to 1.1.1.1 (20s): resource temporarily unavailable"
    );
    assert_eq!(trace_up(&ip), "* 1.1.1.1 is up!");
    assert_eq!(
        trace_send_error(&ip, "broken pipe"),
        "* Error connecting to 1.1.1.1: broken pipe"
    );
    assert_eq!(
        trace_read_error(&ip, "malformed packet"),
        "* Error reading data from 1.1.1.1: malformed packet"
    );
    assert_eq!(trace_unreachable(&ip), "* 1.1.1.1 is unreachable");
    assert_eq!(
        trace_time_exceeded(&ip, 20),
        "* Timeout connecting to 1.1.1.1 (20s)"
    );
    assert_eq!(
        trace_unknown(&ip, 13),
        "* Unknown ICMP packet received from 1.1.1.1: IcmpType(13)"
    );
}
