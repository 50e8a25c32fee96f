
mod addr;
mod errors;
mod icmp;
mod parse;
mod ping;

pub use addr::{
    addr_text, best_zero_run, dec_rep, groups_text, lemma_best_zero_run, v4_text, v6_text,
    zero_run_len, Address,
};
pub use errors::{error_text, Error};
pub use icmp::{
    echo_bytes, inet_checksum, lemma_first_advance, request_bytes, ECHO_REQUEST_V4,
    ECHO_REQUEST_V6, ICMP,
};
pub use parse::{
    lemma_parse_family, lemma_v4_round_trip, lemma_v6_full_form_round_trip, parse_ip, parse_v4,
    parse_v6, spec_parse_ip, spec_parse_v4, spec_parse_v6,
};
pub use ping::{
    classified, classify, event_fits, first_address, format_icmp_type, hostname_target, resolve_hostname_step,
    icmp_type_text, literal_target, step, stepped, trace_pinging, trace_read_error,
    trace_send_error, trace_time_exceeded, trace_timeout, trace_unknown, trace_unreachable,
    trace_up, unknown_type_text, PingEvent, PingState, Target,
};
