//! Message type ids and the decoded message.
use vstd::prelude::*;

use crate::status::{Battery, Ping, Status100ms, Status10ms, Status20ms};
use crate::triggers::Triggers;

verus! {

// Message type ids (from MCU).
pub const T_TRIGGERS: u8 = 0x00;

pub const T_STATUS_20MS: u8 = 0x01;

pub const T_STATUS_10MS: u8 = 0x02;

pub const T_STATUS_100MS: u8 = 0x03;

pub const T_STATUS_500MS: u8 = 0x05;

pub const T_PING: u8 = 0x0F;

pub const T_BATTERY: u8 = 0x2B;

/// Decoded message, or `Raw` for a type that is not modelled or a payload that is too short.
#[derive(Debug, Clone, Copy)]
pub enum Msg {
    Triggers(Triggers),
    Status20ms(Status20ms),
    Status10ms(Status10ms),
    Status100ms(Status100ms),
    Battery(Battery),
    Ping(Ping),
    Raw { typ: u8, len: usize },
}

/// The message of type `typ` with the payload `p`.
pub open spec fn decoded(typ: u8, p: Seq<u8>) -> Msg {
    if typ == T_TRIGGERS && p.len() >= 7 {
        Msg::Triggers(Triggers::at(p))
    } else if typ == T_STATUS_20MS && p.len() >= 30 {
        Msg::Status20ms(Status20ms::at(p))
    } else if typ == T_STATUS_10MS && p.len() >= 18 {
        Msg::Status10ms(Status10ms::at(p))
    } else if typ == T_STATUS_100MS && p.len() >= 11 {
        Msg::Status100ms(Status100ms::at(p))
    } else if typ == T_BATTERY && p.len() >= 10 {
        Msg::Battery(Battery::at(p))
    } else if typ == T_PING && p.len() >= 8 {
        Msg::Ping(Ping::at(p))
    } else {
        Msg::Raw { typ, len: p.len() as usize }
    }
}

impl Msg {
    /// Decode a `(type, payload)` pair (as returned by `parse_body`).
    pub fn decode(typ: u8, payload: &[u8]) -> (m: Msg)
        ensures
            m == decoded(typ, payload@),
    {
        if typ == T_TRIGGERS {
            if let Some(t) = Triggers::parse(payload) {
                return Msg::Triggers(t);
            }
        } else if typ == T_STATUS_20MS {
            if let Some(s) = Status20ms::parse(payload) {
                return Msg::Status20ms(s);
            }
        } else if typ == T_STATUS_10MS {
            if let Some(s) = Status10ms::parse(payload) {
                return Msg::Status10ms(s);
            }
        } else if typ == T_STATUS_100MS {
            if let Some(s) = Status100ms::parse(payload) {
                return Msg::Status100ms(s);
            }
        } else if typ == T_BATTERY {
            if let Some(b) = Battery::parse(payload) {
                return Msg::Battery(b);
            }
        } else if typ == T_PING {
            if let Some(p) = Ping::parse(payload) {
                return Msg::Ping(p);
            }
        }
        Msg::Raw { typ, len: payload.len() }
    }
}

/// Bytes behind the known prefix of a message do not change what it says.
pub proof fn law_trailing_bytes_are_ignored(typ: u8, p: Seq<u8>, tail: Seq<u8>)
    requires
        decoded(typ, p) !is Raw,
    ensures
        decoded(typ, p + tail) == decoded(typ, p),
{
    assert forall|i: int| 0 <= i < p.len() implies (p + tail)[i] == p[i] by {}
}

/// Each known type is decoded exactly where its payload is long enough, and into its own
/// message; all else stays raw.
pub proof fn law_known_types_are_decoded(typ: u8, p: Seq<u8>)
    requires
        p.len() <= usize::MAX,
    ensures
        typ == 0x00 && p.len() >= 7 <==> decoded(typ, p) is Triggers,
        typ == 0x01 && p.len() >= 30 <==> decoded(typ, p) is Status20ms,
        typ == 0x02 && p.len() >= 18 <==> decoded(typ, p) is Status10ms,
        typ == 0x03 && p.len() >= 11 <==> decoded(typ, p) is Status100ms,
        typ == 0x2b && p.len() >= 10 <==> decoded(typ, p) is Battery,
        typ == 0x0f && p.len() >= 8 <==> decoded(typ, p) is Ping,
        decoded(typ, p) matches Msg::Triggers(t) ==> t.raw@ == p.take(7),
        decoded(typ, p) matches Msg::Status20ms(s) ==> s == Status20ms::at(p),
        decoded(typ, p) matches Msg::Status10ms(s) ==> s == Status10ms::at(p),
        decoded(typ, p) matches Msg::Status100ms(s) ==> s == Status100ms::at(p),
        decoded(typ, p) matches Msg::Battery(b) ==> b == Battery::at(p),
        decoded(typ, p) matches Msg::Ping(m) ==> m == Ping::at(p),
        decoded(typ, p) matches Msg::Raw { typ: t, len } ==> t == typ && len == p.len(),
        T_STATUS_500MS == 0x05,
{
    if let Msg::Triggers(t) = decoded(typ, p) {
        assert(t.raw@ =~= p.take(7));
    }
}

/// What decoding a message gives is what the laws on `decoded` speak of.
pub proof fn law_decode_gives_the_message(typ: u8, payload: &[u8], m: Msg)
    requires
        call_ensures(Msg::decode, (typ, payload), m),
    ensures
        m == decoded(typ, payload@),
{
}

} // verus!
