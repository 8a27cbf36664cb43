//! Parsing of sshd authentication-failure log lines: whitespace-delimited
//! fields at fixed positions, with explicit handling of every malformed
//! line. A malformed log line is data, not a programming error.

use vstd::prelude::*;

verus! {

use crate::net::{parse_ipv4_address, spec_parse_ipv4};
use crate::text::{parse_u16, spec_fields, spec_parse_u16, starts_with_spec, str_eq,
    str_starts_with, whitespace_field};

/// Position of the service field (e.g. "sshd[1234]:") in a log line.
pub const SERVICE_FIELD: usize = 4;

/// Position of the message's first word in a log line.
pub const MSG_FIELD: usize = 5;

/// Position of the user name in an authentication-failure line.
pub const USER_FIELD: usize = 7;

/// Position of the client address in an authentication-failure line.
pub const ADDRESS_FIELD: usize = 9;

/// Position of the client port in an authentication-failure line.
pub const PORT_FIELD: usize = 11;

/// Why a log line could not be read as an sshd failure event.
#[derive(Debug, PartialEq, Eq, Structural)]
pub enum LogError {
    /// The line is not an sshd failure line, or a required field is absent.
    BadFormat,
    /// A required field is present but does not parse as its value.
    BadValue,
}

/// Get the `n`th field in `s`, using whitespace as a delimiter.
pub fn get_field<'a>(s: &'a str, n: usize) -> (r: Result<&'a str, LogError>)
    ensures
        match r {
            Ok(f) => n < spec_fields(s@).len() && f@ == spec_fields(s@)[n as int],
            Err(e) => spec_fields(s@).len() <= n && e == LogError::BadFormat,
        },
{
    match whitespace_field(s, n) {
        Some(f) => Ok(f),
        None => Err(LogError::BadFormat),
    }
}

/// Apply `predicate` to the `n`th whitespace-separated field in `s`;
/// a line with fewer fields fails the check.
pub fn check_field<F: Fn(&str) -> bool>(s: &str, n: usize, predicate: F) -> (r: bool)
    requires
        forall|x: &str| call_requires(predicate, (x,)),
    ensures
        spec_fields(s@).len() <= n ==> r == false,
        n < spec_fields(s@).len() ==> exists|t: &str|
            t@ == spec_fields(s@)[n as int] && #[trigger] call_ensures(predicate, (t,), r),
{
    match whitespace_field(s, n) {
        Some(f) => predicate(f),
        None => false,
    }
}

/// Whether `t` names the sshd service, as the service field of a log line
/// writes it: "sshd[" followed by the process id.
pub open spec fn is_sshd_service(t: Seq<char>) -> bool {
    starts_with_spec(t, "sshd["@)
}

/// Whether `t` is the word an sshd failure message starts with.
pub open spec fn is_failure_msg(t: Seq<char>) -> bool {
    t == "Invalid"@
}

fn service_names_sshd(t: &str) -> (b: bool)
    ensures
        b == is_sshd_service(t@),
{
    str_starts_with(t, "sshd[")
}

fn msg_is_invalid(t: &str) -> (b: bool)
    ensures
        b == is_failure_msg(t@),
{
    str_eq(t, "Invalid")
}

/// Whether the log line records an sshd authentication failure: its
/// service field starts with "sshd[" and its message field is "Invalid".
pub open spec fn spec_is_sshd_failure(s: Seq<char>) -> bool {
    let fs = spec_fields(s);
    &&& fs.len() > SERVICE_FIELD
    &&& is_sshd_service(fs[SERVICE_FIELD as int])
    &&& fs.len() > MSG_FIELD
    &&& is_failure_msg(fs[MSG_FIELD as int])
}

/// Check if `log` is an sshd authentication failure.
pub fn log_is_sshd_failure(log: &str) -> (r: bool)
    ensures
        r == spec_is_sshd_failure(log@),
{
    let service_ok = check_field(log, SERVICE_FIELD, service_names_sshd);
    let msg_ok = check_field(log, MSG_FIELD, msg_is_invalid);
    service_ok && msg_ok
}

/// An sshd authentication failure: the raw line, the rejected user, and
/// the client's address and port.
#[derive(Debug)]
pub struct SshdEvent {
    pub log: String,
    pub user: String,
    pub addr: u32,
    pub port: u16,
}

/// The outcome owed for reading `s` as an sshd failure event: the user,
/// address and port fields, or the first error met reading them in order.
/// An absent field is a format error; a present field that does not parse
/// as its value is a value error.
pub open spec fn spec_sshd_event(s: Seq<char>) -> Result<(Seq<char>, u32, u16), LogError> {
    let fs = spec_fields(s);
    if !spec_is_sshd_failure(s) {
        Err(LogError::BadFormat)
    } else if fs.len() <= USER_FIELD {
        Err(LogError::BadFormat)
    } else if fs.len() <= ADDRESS_FIELD {
        Err(LogError::BadFormat)
    } else if spec_parse_ipv4(fs[ADDRESS_FIELD as int]) is None {
        Err(LogError::BadValue)
    } else if fs.len() <= PORT_FIELD {
        Err(LogError::BadFormat)
    } else if spec_parse_u16(fs[PORT_FIELD as int]) is None {
        Err(LogError::BadValue)
    } else {
        Ok(
            (
                fs[USER_FIELD as int],
                spec_parse_ipv4(fs[ADDRESS_FIELD as int]).unwrap(),
                spec_parse_u16(fs[PORT_FIELD as int]).unwrap(),
            ),
        )
    }
}

impl SshdEvent {
    /// Read a log line as an sshd authentication failure event.
    pub fn from_str(s: &str) -> (r: Result<SshdEvent, LogError>)
        ensures
            match r {
                Ok(ev) => spec_sshd_event(s@) == Ok::<(Seq<char>, u32, u16), LogError>(
                    (ev.user@, ev.addr, ev.port),
                ) && ev.log@ == s@,
                Err(e) => spec_sshd_event(s@) == Err::<(Seq<char>, u32, u16), LogError>(e),
            },
    {
        if !log_is_sshd_failure(s) {
            return Err(LogError::BadFormat);
        }
        let user = match get_field(s, USER_FIELD) {
            Ok(f) => f.to_owned(),
            Err(e) => {
                return Err(e);
            },
        };
        let addr_text = match get_field(s, ADDRESS_FIELD) {
            Ok(f) => f,
            Err(e) => {
                return Err(e);
            },
        };
        let addr = match parse_ipv4_address(addr_text) {
            Some(a) => a,
            None => {
                return Err(LogError::BadValue);
            },
        };
        let port_text = match get_field(s, PORT_FIELD) {
            Ok(f) => f,
            Err(e) => {
                return Err(e);
            },
        };
        let port = match parse_u16(port_text) {
            Some(p) => p,
            None => {
                return Err(LogError::BadValue);
            },
        };
        Ok(SshdEvent { log: s.to_owned(), user, addr, port })
    }
}

} // verus!
