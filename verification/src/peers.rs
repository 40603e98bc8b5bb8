use vstd::prelude::*;

use crate::numeric::{spec_dec_u16, spec_digit_char};

verus! {

/// The two endpoint addresses of this peer: the one to bind locally
/// and the one the remote peer listens on.  Immutable for the process
/// lifetime.
#[derive(Clone, Debug)]
pub struct Peers {
    pub local: String,
    pub remote: String,
}

impl Peers {
    /// A peer pair from the two address strings.
    pub fn new(local: String, remote: String) -> (r: Peers)
        ensures
            r.local@ == local@,
            r.remote@ == remote@,
    {
        Peers { local, remote }
    }
}

impl PartialEq for Peers {
    fn eq(&self, other: &Peers) -> (r: bool) {
        self.local.eq(&other.local) && self.remote.eq(&other.remote)
    }
}

impl vstd::std_specs::cmp::PartialEqSpecImpl for Peers {
    open spec fn obeys_eq_spec() -> bool {
        true
    }

    open spec fn eq_spec(&self, other: &Peers) -> bool {
        self.local@ == other.local@ && self.remote@ == other.remote@
    }
}

/// The single character for a decimal digit value.
fn digit_str(d: u8) -> (r: &'static str)
    requires
        d < 10,
    ensures
        r@ == seq![spec_digit_char(d)],
{
    proof {
        reveal_strlit("0");
        reveal_strlit("1");
        reveal_strlit("2");
        reveal_strlit("3");
        reveal_strlit("4");
        reveal_strlit("5");
        reveal_strlit("6");
        reveal_strlit("7");
        reveal_strlit("8");
        reveal_strlit("9");
    }
    match d {
        0u8 => "0",
        1u8 => "1",
        2u8 => "2",
        3u8 => "3",
        4u8 => "4",
        5u8 => "5",
        6u8 => "6",
        7u8 => "7",
        8u8 => "8",
        _ => "9",
    }
}

/// The decimal rendering of a 16-bit value, for the port half of a
/// socket address.
pub fn u16_to_string(v: u16) -> (r: String)
    ensures
        r@ == spec_dec_u16(v),
    decreases v,
{
    if v < 10 {
        String::from_str(digit_str(v as u8))
    } else {
        let rest = u16_to_string(v / 10);
        rest.concat(digit_str((v % 10) as u8))
    }
}

/// The `host:port` string that a socket is bound to or addressed by.
pub fn socket_address(host: &str, port: u16) -> (r: String)
    ensures
        r@ == host@ + ":"@ + spec_dec_u16(port),
{
    String::from_str(host).concat(":").concat(u16_to_string(port).as_str())
}

} // verus!
