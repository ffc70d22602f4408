//! SipHash over the identities of Mles users and channels.
use siphasher::sip::SipHasher;
use vstd::prelude::*;
use vstd::utf8::encode_utf8;

verus! {

/// The SipHash-2-4 value of `data` under the keys 0 and 0.
pub uninterp spec fn siphash(data: Seq<u8>) -> u64;

/// Hashes `data` with siphasher's `SipHasher::new()` (SipHash-2-4 keyed with
/// 0 and 0) through `SipHasher::hash`. The contract only names the result: it
/// is a function of the bytes alone.
#[verifier::external_body]
pub(crate) fn sip_hash(data: &[u8]) -> (r: u64)
    ensures
        r == siphash(data@),
{
    SipHasher::new().hash(data)
}

/// The bytes that hashing a `String` feeds to a hasher: its UTF-8 bytes and
/// the terminator 0xff.
pub open spec fn hashed_str(s: Seq<char>) -> Seq<u8> {
    encode_utf8(s) + seq![0xffu8]
}

/// The bytes that hashing the strings `t` in order feeds to a hasher.
pub open spec fn hashed_strs(t: Seq<Seq<char>>) -> Seq<u8>
    decreases t.len(),
{
    if t.len() == 0 {
        seq![]
    } else {
        hashed_strs(t.drop_last()) + hashed_str(t.last())
    }
}

/// The Mles hash of a list of strings.
pub open spec fn spec_do_hash(t: Seq<Seq<char>>) -> u64 {
    siphash(hashed_strs(t))
}

/// Appends the bytes of `s` to `v`.
pub fn push_str_bytes(v: &mut Vec<u8>, s: &str)
    ensures
        final(v)@ == old(v)@ + encode_utf8(s@),
{
    let b = s.as_bytes();
    let n = b.len();
    let ghost start = v@;
    for i in 0..n
        invariant
            n == b@.len(),
            b@ == encode_utf8(s@),
            v@ == start + b@.subrange(0, i as int),
    {
        v.push(b[i]);
        assert(v@ =~= start + b@.subrange(0, i + 1));
    }
    assert(b@.subrange(0, n as int) =~= b@);
}

/// The Mles hash of a list of strings: SipHash over each string's bytes
/// followed by 0xff, as hashing each `String` into one hasher does.
pub fn do_hash(t: &[String]) -> (r: u64)
    ensures
        r == spec_do_hash(t@.map_values(|s: String| s@)),
{
    let mut data: Vec<u8> = Vec::new();
    let n = t.len();
    for i in 0..n
        invariant
            n == t@.len(),
            data@ == hashed_strs(t@.subrange(0, i as int).map_values(|s: String| s@)),
    {
        let ghost prev = t@.subrange(0, i as int).map_values(|s: String| s@);
        push_str_bytes(&mut data, t[i].as_str());
        data.push(0xffu8);
        let ghost next = t@.subrange(0, i + 1).map_values(|s: String| s@);
        assert(next.drop_last() =~= prev);
        assert(next.last() == t@[i as int]@);
        assert(data@ =~= hashed_strs(next));
    }
    assert(t@.subrange(0, n as int) =~= t@);
    sip_hash(data.as_slice())
}

} // verus!
