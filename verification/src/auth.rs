//! Authentication of a joining user: the hash of uid, channel and the server
//! key, given in hexadecimal.
use crate::num::{parse_u64, spec_parse_u64};
use crate::sip::{sip_hash, siphash};
use vstd::prelude::*;
use vstd::utf8::encode_utf8;

verus! {

/// The 64-bit number that `s` gives in base 16, as `u64::from_str_radix`
/// reads it: an optional `+` and at least one hexadecimal digit, with no
/// overflow.
pub open spec fn spec_parse_hex(s: Seq<u8>) -> Option<u64> {
    spec_parse_u64(s, 16)
}

/// Parses a hexadecimal number, as `u64::from_str_radix(s, 16)` does.
pub fn parse_hex(s: &str) -> (r: Option<u64>)
    ensures
        r == spec_parse_hex(encode_utf8(s@)),
{
    parse_u64(s, 16)
}

/// The number that an auth string stands for: its hexadecimal value, or 0
/// when it is not a valid one.
pub open spec fn auth_value(auth: Seq<char>) -> u64 {
    match spec_parse_hex(encode_utf8(auth)) {
        Some(v) => v,
        None => 0,
    }
}

/// Whether a user may join: with a server key, an auth must be given and
/// equal the hash of uid, channel and key; without one, anyone may join
/// unless an auth is given, which must then equal the hash of uid and channel.
pub open spec fn spec_verify_auth(
    uid: Seq<char>,
    channel: Seq<char>,
    auth: Option<Seq<char>>,
    key: Option<Seq<char>>,
) -> bool {
    let base = encode_utf8(uid) + encode_utf8(channel);
    match key {
        Some(k) => match auth {
            Some(a) => siphash(base + encode_utf8(k)) == auth_value(a),
            None => false,
        },
        None => match auth {
            Some(a) => siphash(base) == auth_value(a),
            None => true,
        },
    }
}

/// The view of an optional string slice.
pub open spec fn opt_str_view(s: Option<&str>) -> Option<Seq<char>> {
    match s {
        Some(x) => Some(x@),
        None => None,
    }
}

/// Appends the UTF-8 bytes of `s` to `v`.
fn push_utf8(v: &mut Vec<u8>, s: &str)
    ensures
        final(v)@ == old(v)@ + encode_utf8(s@),
{
    crate::sip::push_str_bytes(v, s);
}

/// Checks a joining user's auth against the server key.
pub fn verify_auth(uid: &str, channel: &str, auth: Option<&str>, key: Option<&str>) -> (r: bool)
    ensures
        r == spec_verify_auth(uid@, channel@, opt_str_view(auth), opt_str_view(key)),
{
    let mut data: Vec<u8> = Vec::new();
    push_utf8(&mut data, uid);
    push_utf8(&mut data, channel);
    match key {
        Some(k) => {
            match auth {
                Some(a) => {
                    push_utf8(&mut data, k);
                    let hash = sip_hash(data.as_slice());
                    let auth_hash = match parse_hex(a) {
                        Some(v) => v,
                        None => 0,
                    };
                    hash == auth_hash
                },
                None => false,
            }
        },
        None => {
            match auth {
                Some(a) => {
                    let hash = sip_hash(data.as_slice());
                    let auth_hash = match parse_hex(a) {
                        Some(v) => v,
                        None => 0,
                    };
                    hash == auth_hash
                },
                None => true,
            }
        },
    }
}

} // verus!
