//! The commands that a user can give, and what is read out of them before any device is
//! touched.

use crate::backend::{self, Color, ColorParseError};
use crate::commands::payload::{self, HexError, ProbeError, ProbeRequest};
use crate::text::{self, DigitsError};
use vstd::prelude::*;

verus! {

/// Everything that was given on the command line.
#[derive(Debug)]
pub struct Cli {
    pub cmd: Cmd,
    /// Whether the output is to be JSON.
    pub json: bool,
}

/// A command as it was given.
#[derive(Debug)]
pub enum Cmd {
    /// Discover RGB devices across all backends.
    List,
    /// Dump every USB HID collection.
    Scan,
    /// Dump the report descriptor of a device.
    Descriptor { device: String },
    /// Send a payload as a feature report.
    RawWrite { device: String, payload: String },
    /// Read names, colors and registers of every ENE controller.
    EneProbe,
    /// Read a feature report.
    Probe { device: String, report_id: String, len: usize },
    /// Paint devices one static color.
    Paint { color: String, device: Option<String> },
}

/// A command whose arguments have been read.
#[derive(Debug)]
pub enum Request {
    List,
    Scan,
    Descriptor { device: String },
    RawWrite { device: String, payload: Vec<u8> },
    EneProbe,
    Probe { device: String, report: ProbeRequest },
    Paint { color: Color, device: Option<String> },
}

/// Why the arguments of a command cannot be read.
#[derive(Debug, Clone, Copy, PartialEq, Eq, Structural)]
pub enum RequestError {
    BadColor(ColorParseError),
    BadPayload(HexError),
    BadProbe(ProbeError),
}

/// What is said of arguments that cannot be read.
pub open spec fn error_context(e: RequestError) -> Seq<char> {
    match e {
        RequestError::BadColor(_) => "parsing --color"@,
        RequestError::BadPayload(e) => payload::hex_error_text(e),
        RequestError::BadProbe(e) => payload::probe_error_text(e),
    }
}

/// What is said of a number that could not be read.
pub open spec fn number_cause(cause: Option<DigitsError>) -> Option<Seq<char>> {
    match cause {
        Some(e) => Some(text::digits_error_text(e)),
        None => None,
    }
}

/// What is said of the cause, where there is one.
pub open spec fn error_cause(e: RequestError) -> Option<Seq<char>> {
    match e {
        RequestError::BadColor(e) => Some(backend::color_error_text(e)),
        RequestError::BadPayload(e) => number_cause(payload::hex_error_cause(e)),
        RequestError::BadProbe(e) => number_cause(payload::probe_error_cause(e)),
    }
}

/// What is said of arguments that cannot be read, with the cause behind it.
pub open spec fn request_error_text(e: RequestError) -> Seq<char> {
    match error_cause(e) {
        Some(cause) => error_context(e) + ": "@ + cause,
        None => error_context(e),
    }
}

/// What is said of a number that could not be read.
fn number_cause_text(cause: Option<DigitsError>) -> (s: Option<String>)
    ensures
        s is Some == cause is Some,
        s matches Some(t) ==> number_cause(cause) == Some(t@),
{
    match cause {
        Some(e) => Some(e.to_string()),
        None => None,
    }
}

impl RequestError {
    /// What is said of the arguments.
    pub fn context(&self) -> (s: String)
        ensures
            s@ == error_context(*self),
    {
        match self {
            RequestError::BadColor(_) => "parsing --color".to_owned(),
            RequestError::BadPayload(e) => e.to_string(),
            RequestError::BadProbe(e) => e.to_string(),
        }
    }

    /// What is said of the cause, where there is one.
    pub fn cause(&self) -> (s: Option<String>)
        ensures
            s is Some == error_cause(*self) is Some,
            s matches Some(t) ==> error_cause(*self) == Some(t@),
    {
        match self {
            RequestError::BadColor(e) => Some(e.to_string()),
            RequestError::BadPayload(e) => number_cause_text(e.cause()),
            RequestError::BadProbe(e) => number_cause_text(e.cause()),
        }
    }

    /// What is said of the arguments, with the cause behind it.
    pub fn to_string(&self) -> (s: String)
        ensures
            s@ == request_error_text(*self),
    {
        let mut s = self.context();
        if let Some(cause) = self.cause() {
            s.append(": ");
            s.append(cause.as_str());
        }
        s
    }
}

impl Cmd {
    /// Reads the arguments of the command. A color, a payload or a report request that is
    /// wrong is refused; the filters are taken as they are.
    pub fn prepare(self) -> (r: Result<Request, RequestError>)
        ensures
            match self {
                Cmd::List => r matches Ok(Request::List),
                Cmd::Scan => r matches Ok(Request::Scan),
                Cmd::EneProbe => r matches Ok(Request::EneProbe),
                Cmd::Descriptor { device: given } => r matches Ok(Request::Descriptor { device })
                    && device@ == given@,
                Cmd::RawWrite { device: given, payload: spelled } => {
                    let digits = payload::digits_of(spelled@);
                    match r {
                        Ok(Request::RawWrite { device, payload }) => {
                            &&& device@ == given@
                            &&& digits.len() == 2 * payload@.len()
                            &&& forall|k: int|
                                0 <= k < payload@.len() ==> text::hex_pair(digits, 2 * k)
                                    == Some(#[trigger] payload@[k] as nat)
                        },
                        Err(RequestError::BadPayload(HexError::OddDigits)) => digits.len() % 2 == 1,
                        Err(RequestError::BadPayload(HexError::BadHex { byte })) => {
                            &&& digits.len() % 2 == 0
                            &&& 2 * byte < digits.len()
                            &&& text::hex_pair(digits, 2 * byte) is None
                            &&& forall|k: int|
                                0 <= k < byte ==> #[trigger] text::hex_pair(
                                    digits,
                                    2 * k,
                                ) is Some
                        },
                        _ => false,
                    }
                },
                Cmd::Probe { device: given, report_id, len } => match payload::requested(
                    report_id@,
                    len as nat,
                ) {
                    Ok(wanted) => r matches Ok(Request::Probe { device, report }) && device@
                        == given@ && report == wanted,
                    Err(e) => r matches Err(RequestError::BadProbe(got)) && got == e,
                },
                Cmd::Paint { color: spelled, device: given } => match backend::parsed_color(
                    spelled@,
                ) {
                    Ok(wanted) => r matches Ok(Request::Paint { color, device }) && color == wanted
                        && device == given,
                    Err(e) => r matches Err(RequestError::BadColor(got)) && got == e,
                },
            },
    {
        match self {
            Cmd::List => Ok(Request::List),
            Cmd::Scan => Ok(Request::Scan),
            Cmd::EneProbe => Ok(Request::EneProbe),
            Cmd::Descriptor { device } => Ok(Request::Descriptor { device }),
            Cmd::RawWrite { device, payload: spelled } => match payload::parse_hex_bytes(
                spelled.as_str(),
            ) {
                Ok(payload) => Ok(Request::RawWrite { device, payload }),
                Err(e) => Err(RequestError::BadPayload(e)),
            },
            Cmd::Probe { device, report_id, len } => match payload::probe_request(
                report_id.as_str(),
                len,
            ) {
                Ok(report) => Ok(Request::Probe { device, report }),
                Err(e) => Err(RequestError::BadProbe(e)),
            },
            Cmd::Paint { color: spelled, device } => match Color::from_hex(spelled.as_str()) {
                Ok(color) => Ok(Request::Paint { color, device }),
                Err(e) => Err(RequestError::BadColor(e)),
            },
        }
    }
}

} // verus!
