use vstd::prelude::*;

verus! {

/// The error taxonomy: every failure the peers report is one of these
/// kinds, carrying the text that is rendered to the terminal.
#[derive(Debug)]
pub enum Error {
    Crypto(String),
    Message(String),
    Network(String),
    Stdin(String),
    Unknown,
}

/// The numeric codes that resolve to a known error.
pub open spec fn spec_known_code(code: u16) -> bool {
    code == 101 || code == 102 || code == 201 || code == 202 || code == 301 || code == 302
        || code == 401
}

/// The body text attached to each known numeric code.
pub open spec fn spec_code_body(code: u16) -> Seq<char> {
    if code == 101 {
        "can't verify message signature"@
    } else if code == 102 {
        "can't decode key"@
    } else if code == 201 {
        "timeout, can't connect to peer"@
    } else if code == 202 {
        "message not sent"@
    } else if code == 301 {
        "can't read from command line"@
    } else if code == 302 {
        "resizing is unsupported"@
    } else if code == 401 {
        "can't deserialize message"@
    } else {
        Seq::<char>::empty()
    }
}

/// The full line rendered for an error value: the kind's prefix, the
/// body, and an exclamation mark.
pub open spec fn spec_error_text(e: Error) -> Seq<char> {
    match e {
        Error::Crypto(s) => "Crypto error: "@ + s@ + "!"@,
        Error::Message(s) => "Message error: "@ + s@ + "!"@,
        Error::Network(s) => "Network error: "@ + s@ + "!"@,
        Error::Stdin(s) => "Stdin error: "@ + s@ + "!"@,
        Error::Unknown => "Unknown error!"@,
    }
}

/// The full line rendered for a numeric code.
pub open spec fn spec_code_text(code: u16) -> Seq<char> {
    if code == 101 || code == 102 {
        "Crypto error: "@ + spec_code_body(code) + "!"@
    } else if code == 201 || code == 202 {
        "Network error: "@ + spec_code_body(code) + "!"@
    } else if code == 301 || code == 302 {
        "Stdin error: "@ + spec_code_body(code) + "!"@
    } else if code == 401 {
        "Message error: "@ + spec_code_body(code) + "!"@
    } else {
        "Unknown error!"@
    }
}

impl Error {
    /// The terminal rendering of this error.
    pub fn to_string(&self) -> (r: String)
        ensures
            r@ == spec_error_text(*self),
    {
        match self {
            Error::Crypto(s) => String::from_str("Crypto error: ").concat(s.as_str()).concat("!"),
            Error::Message(s) => String::from_str("Message error: ").concat(s.as_str()).concat(
                "!",
            ),
            Error::Network(s) => String::from_str("Network error: ").concat(s.as_str()).concat(
                "!",
            ),
            Error::Stdin(s) => String::from_str("Stdin error: ").concat(s.as_str()).concat("!"),
            Error::Unknown => String::from_str("Unknown error!"),
        }
    }
}

/// Maps a fixed numeric code to its error value; any unlisted code is
/// the unknown error.
pub fn _throw(code: u16) -> (r: Error)
    ensures
        code == 101 || code == 102 ==> (r matches Error::Crypto(s) && s@ == spec_code_body(code)),
        code == 201 || code == 202 ==> (r matches Error::Network(s) && s@ == spec_code_body(code)),
        code == 301 || code == 302 ==> (r matches Error::Stdin(s) && s@ == spec_code_body(code)),
        code == 401 ==> (r matches Error::Message(s) && s@ == spec_code_body(code)),
        !spec_known_code(code) ==> r is Unknown,
        spec_error_text(r) == spec_code_text(code),
{
    match code {
        101u16 => Error::Crypto(String::from_str("can't verify message signature")),
        102u16 => Error::Crypto(String::from_str("can't decode key")),
        201u16 => Error::Network(String::from_str("timeout, can't connect to peer")),
        202u16 => Error::Network(String::from_str("message not sent")),
        301u16 => Error::Stdin(String::from_str("can't read from command line")),
        302u16 => Error::Stdin(String::from_str("resizing is unsupported")),
        401u16 => Error::Message(String::from_str("can't deserialize message")),
        _ => Error::Unknown,
    }
}

/// The line to print for a numeric code; the caller renders it with the
/// current terminal row cleared.
pub fn throw(code: u16) -> (r: String)
    ensures
        r@ == spec_code_text(code),
{
    _throw(code).to_string()
}

} // verus!
