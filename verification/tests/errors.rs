use pinger::{parse_ip, Error};

#[test]
fn errors() {
    assert_eq!(
        Error::DestinationUnreachable(parse_ip("1.1.1.1").unwrap()).message(),
        "1.1.1.1 is unreachable"
    );
    assert_eq!(
        Error::InvalidAddress("1.2.3.456".to_owned()).message(),
        "1.2.3.456 is not a valid address"
    );
    assert_eq!(
        Error::NoResponse(parse_ip("127.0.0.1").unwrap()).message(),
        "No response from 127.0.0.1"
    );
    assert_eq!(Error::PrivilegeRequired.message(), "Permission denied");
    assert_eq!(
        Error::Timeout(parse_ip("1.1.1.1").unwrap(), 20).message(),
        "Timeout connecting to 1.1.1.1 (20s)"
    );
    assert_eq!(
        Error::Unknown("weirdo".to_owned()).message(),
        "Unknown error: weirdo"
    );
}

#[test]
fn error_messages_for_v6_addresses() {
    assert_eq!(
        Error::DestinationUnreachable(parse_ip("::1").unwrap()).message(),
        "::1 is unreachable"
    );
    assert_eq!(
        Error::Timeout(parse_ip("2001:4860:4860::8888").unwrap(), 1).message(),
        "Timeout connecting to 2001:4860:4860::8888 (1s)"
    );
}
