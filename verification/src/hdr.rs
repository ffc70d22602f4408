//! The Mles frame header: a 32-bit word holding the type byte `'M'` and a
//! 24-bit length, a 32-bit connection id and a 64-bit key, all in network
//! byte order.
use crate::addr::{addr_str, spec_addr_str, HostAddr};
use vstd::prelude::*;

verus! {

/// Size of the header word plus the connection id.
pub const HDRL: usize = 8;

/// Size of the connection id.
pub const CIDL: usize = 4;

/// Size of the key.
pub const KEYL: usize = 8;

/// Size of the header plus the key.
pub const HDRKEYL: usize = 16;

/// Largest message size that the header can describe.
pub const MSGMAXSIZE: usize = 0xffffff;

/// The type byte of every Mles frame, `'M'`.
pub const MSG_TYPE: u32 = 77;

// ---------------------------------------------------------------------------
// Big-endian encoding
// ---------------------------------------------------------------------------

/// The four bytes of `x`, most significant first.
pub open spec fn be32(x: u32) -> Seq<u8> {
    seq![(x >> 24u32) as u8, (x >> 16u32) as u8, (x >> 8u32) as u8, x as u8]
}

/// The eight bytes of `x`, most significant first.
pub open spec fn be64(x: u64) -> Seq<u8> {
    be32((x >> 32u64) as u32) + be32(x as u32)
}

/// The number whose big-endian bytes are the four bytes of `s` starting at `at`.
pub open spec fn from_be32(s: Seq<u8>, at: int) -> u32 {
    ((s[at] as u32) << 24u32) | ((s[at + 1] as u32) << 16u32) | ((s[at + 2] as u32) << 8u32) | (
    s[at + 3] as u32)
}

/// The number whose big-endian bytes are the eight bytes of `s` starting at `at`.
pub open spec fn from_be64(s: Seq<u8>, at: int) -> u64 {
    ((from_be32(s, at) as u64) << 32u64) | (from_be32(s, at + 4) as u64)
}

/// Reading back four written bytes gives the number that was written.
pub proof fn lemma_be32_roundtrip(x: u32)
    ensures
        be32(x).len() == 4,
        from_be32(be32(x), 0) == x,
{
    let b0 = (x >> 24u32) as u8;
    let b1 = (x >> 16u32) as u8;
    let b2 = (x >> 8u32) as u8;
    let b3 = x as u8;
    assert(((b0 as u32) << 24u32) | ((b1 as u32) << 16u32) | ((b2 as u32) << 8u32) | (b3 as u32)
        == x) by (bit_vector)
        requires
            b0 == (x >> 24u32) as u8,
            b1 == (x >> 16u32) as u8,
            b2 == (x >> 8u32) as u8,
            b3 == x as u8,
    ;
}

/// Reading back eight written bytes gives the number that was written.
pub proof fn lemma_be64_roundtrip(x: u64)
    ensures
        be64(x).len() == 8,
        from_be64(be64(x), 0) == x,
{
    let hi = (x >> 32u64) as u32;
    let lo = x as u32;
    lemma_be32_roundtrip(hi);
    lemma_be32_roundtrip(lo);
    let s = be64(x);
    assert(s.subrange(0, 4) =~= be32(hi));
    assert(s.subrange(4, 8) =~= be32(lo));
    assert(from_be32(s, 0) == from_be32(be32(hi), 0));
    assert(from_be32(s, 4) == from_be32(be32(lo), 0));
    assert(((hi as u64) << 32u64) | (lo as u64) == x) by (bit_vector)
        requires
            hi == (x >> 32u64) as u32,
            lo == x as u32,
    ;
}

/// Appends the big-endian bytes of `x` to `v`.
pub fn push_be32(v: &mut Vec<u8>, x: u32)
    ensures
        final(v)@ == old(v)@ + be32(x),
{
    v.push((x >> 24u32) as u8);
    v.push((x >> 16u32) as u8);
    v.push((x >> 8u32) as u8);
    v.push(x as u8);
    assert(final(v)@ =~= old(v)@ + be32(x));
}

/// Appends the big-endian bytes of `x` to `v`.
pub fn push_be64(v: &mut Vec<u8>, x: u64)
    ensures
        final(v)@ == old(v)@ + be64(x),
{
    push_be32(v, (x >> 32u64) as u32);
    push_be32(v, x as u32);
    assert(final(v)@ =~= old(v)@ + be64(x));
}

/// Reads the big-endian number held by the four bytes of `s` starting at `at`.
pub fn read_be32(s: &[u8], at: usize) -> (r: u32)
    requires
        at + 4 <= s@.len(),
    ensures
        r == from_be32(s@, at as int),
{
    ((s[at] as u32) << 24u32) | ((s[at + 1] as u32) << 16u32) | ((s[at + 2] as u32) << 8u32) | (s[at
        + 3] as u32)
}

/// Reads the big-endian number held by the eight bytes of `s` starting at `at`.
pub fn read_be64(s: &[u8], at: usize) -> (r: u64)
    requires
        at + 8 <= s@.len(),
    ensures
        r == from_be64(s@, at as int),
{
    let n = s.len();
    assert(at + 8 <= n);
    let hi = read_be32(s, at);
    let lo = read_be32(s, at + 4);
    ((hi as u64) << 32u64) | (lo as u64)
}

// ---------------------------------------------------------------------------
// The header word
// ---------------------------------------------------------------------------

/// The header word that `MsgHdr` keeps for length `len`: the type byte on top
/// of the low 24 bits of `len`.
pub open spec fn spec_hdr_set_len(len: u32) -> u32 {
    (MSG_TYPE << 24u32) | (len & 0xffffffu32)
}

/// The header word written on the line for length `len`, before the id.
pub open spec fn spec_hdr_word(len: usize) -> u32 {
    (MSG_TYPE << 24u32) | (len as u32)
}

/// Builds the header word for length `len`.
pub fn hdr_set_len(len: u32) -> (r: u32)
    ensures
        r == spec_hdr_set_len(len),
        r & 0xffffffu32 == len & 0xffffffu32,
        r >> 24u32 == MSG_TYPE,
{
    let r = (77u32 << 24u32) | (len & 0xffffffu32);
    assert(r & 0xffffffu32 == len & 0xffffffu32 && r >> 24u32 == 77u32) by (bit_vector)
        requires
            r == (77u32 << 24u32) | (len & 0xffffffu32),
    ;
    r
}

/// The length held by a header word.
pub fn hdr_get_len(thlen: u32) -> (r: u32)
    ensures
        r == thlen & 0xffffffu32,
        r <= 0xffffff,
{
    let r = thlen & 0xffffffu32;
    assert(r <= 0xffffff) by (bit_vector)
        requires
            r == thlen & 0xffffffu32,
    ;
    r
}

/// The type byte held by a header word.
pub fn hdr_get_type(thlen: u32) -> (r: u8)
    ensures
        r == (thlen >> 24u32) as u8,
{
    (thlen >> 24u32) as u8
}

// ---------------------------------------------------------------------------
// Reading a header from bytes
// ---------------------------------------------------------------------------

/// The type of the frame whose header starts `hdr`: the top byte of the first
/// word, or 0 when `hdr` is shorter than a header.
pub open spec fn spec_read_hdr_type(hdr: Seq<u8>) -> u32 {
    if hdr.len() < HDRL {
        0
    } else {
        from_be32(hdr, 0) >> 24u32
    }
}

/// The length of the frame whose header starts `hdr`: the low 24 bits of the
/// first word, or 0 when `hdr` is shorter than a header.
pub open spec fn spec_read_hdr_len(hdr: Seq<u8>) -> usize {
    if hdr.len() < HDRL {
        0
    } else {
        (from_be32(hdr, 0) & 0xffffffu32) as usize
    }
}

/// The connection id of the header that starts `hdr`, or 0 when `hdr` is
/// shorter than a header.
pub open spec fn spec_read_cid(hdr: Seq<u8>) -> u32 {
    if hdr.len() < HDRL {
        0
    } else {
        from_be32(hdr, 4)
    }
}

/// The key that follows the header at the start of `hdr`, or 0 when `hdr` is
/// shorter than a header and a key.
pub open spec fn spec_read_key(hdr: Seq<u8>) -> u64 {
    if hdr.len() < HDRKEYL {
        0
    } else {
        from_be64(hdr, 8)
    }
}

/// A length read from a header is at most `MSGMAXSIZE`.
pub proof fn lemma_read_hdr_len_bound(hdr: Seq<u8>)
    ensures
        spec_read_hdr_len(hdr) <= MSGMAXSIZE,
{
    if hdr.len() >= HDRL {
        let w = from_be32(hdr, 0);
        assert(w & 0xffffffu32 <= 0xffffff) by (bit_vector);
    }
}

/// Reads the frame type from a header.
pub fn read_hdr_type(hdr: &[u8]) -> (r: u32)
    ensures
        r == spec_read_hdr_type(hdr@),
{
    if hdr.len() < HDRL {
        return 0;
    }
    read_be32(hdr, 0) >> 24u32
}

/// Reads the frame length from a header.
pub fn read_hdr_len(hdr: &[u8]) -> (r: usize)
    ensures
        r == spec_read_hdr_len(hdr@),
        r <= MSGMAXSIZE,
{
    if hdr.len() < HDRL {
        return 0;
    }
    let num = read_be32(hdr, 0);
    let m = num & 0xffffffu32;
    assert(m <= 0xffffff) by (bit_vector)
        requires
            m == num & 0xffffffu32,
    ;
    m as usize
}

/// Reads the connection id from a header.
pub fn read_cid_from_hdr(hdrv: &[u8]) -> (r: u32)
    ensures
        r == spec_read_cid(hdrv@),
{
    if hdrv.len() < HDRL {
        return 0;
    }
    read_be32(hdrv, HDRL - CIDL)
}

/// Reads the key that follows a header.
pub fn read_key_from_hdr(keyv: &[u8]) -> (r: u64)
    ensures
        r == spec_read_key(keyv@),
{
    if keyv.len() < HDRKEYL {
        return 0;
    }
    read_be64(keyv, HDRL)
}

// ---------------------------------------------------------------------------
// Writing a header
// ---------------------------------------------------------------------------

/// The header for a frame of length `len` and connection id `cid`.
pub open spec fn spec_write_hdr(len: usize, cid: u32) -> Seq<u8> {
    be32(spec_hdr_word(len)) + be32(cid)
}

/// Writes the header for a frame of length `len` and connection id `cid`.
pub fn write_hdr(len: usize, cid: u32) -> (r: Vec<u8>)
    ensures
        r@ == spec_write_hdr(len, cid),
{
    let hdr: u32 = (77u32 << 24u32) | (len as u32);
    let mut msgv: Vec<u8> = Vec::new();
    push_be32(&mut msgv, hdr);
    push_be32(&mut msgv, cid);
    assert(msgv@ =~= spec_write_hdr(len, cid));
    msgv
}

/// Writes the header word for a frame of length `len`, without the id.
pub fn write_hdr_without_cid(len: usize) -> (r: Vec<u8>)
    ensures
        r@ == be32(spec_hdr_word(len)),
{
    let hdr: u32 = (77u32 << 24u32) | (len as u32);
    let mut msgv: Vec<u8> = Vec::new();
    push_be32(&mut msgv, hdr);
    assert(msgv@ =~= be32(spec_hdr_word(len)));
    msgv
}

/// Writes a key.
pub fn write_key(val: u64) -> (r: Vec<u8>)
    ensures
        r@ == be64(val),
{
    let mut msgv: Vec<u8> = Vec::new();
    push_be64(&mut msgv, val);
    assert(msgv@ =~= be64(val));
    msgv
}

/// The connection id that belongs to a key: its low 32 bits.
pub open spec fn spec_select_cid(key: u64) -> u32 {
    key as u32
}

/// The header and key for a frame of length `len` under key `key`.
pub open spec fn spec_write_hdr_with_key(len: usize, key: u64) -> Seq<u8> {
    spec_write_hdr(len, spec_select_cid(key)) + be64(key)
}

/// Writes the header and key for a frame of length `len` under key `key`.
pub fn write_hdr_with_key(len: usize, key: u64) -> (r: Vec<u8>)
    ensures
        r@ == spec_write_hdr_with_key(len, key),
{
    let mut hdrv = write_hdr(len, MsgHdr::select_cid(key));
    push_be64(&mut hdrv, key);
    hdrv
}

/// The header `hdrv` with its length replaced by `len`: empty when `hdrv` is
/// shorter than a header.
pub open spec fn spec_write_len_to_hdr(len: usize, hdrv: Seq<u8>) -> Seq<u8> {
    if hdrv.len() < HDRL {
        seq![]
    } else {
        be32(spec_hdr_word(len)) + hdrv.subrange((HDRL - CIDL) as int, hdrv.len() as int)
    }
}

/// Replaces the length in the header at the start of `hdrv`.
pub fn write_len_to_hdr(len: usize, hdrv: Vec<u8>) -> (r: Vec<u8>)
    ensures
        r@ == spec_write_len_to_hdr(len, hdrv@),
{
    let mut hdrv = hdrv;
    if hdrv.len() < HDRL {
        return Vec::new();
    }
    let tail = hdrv.split_off(HDRL - CIDL);
    let mut nhdrv = write_hdr_without_cid(len);
    let mut tail = tail;
    nhdrv.append(&mut tail);
    nhdrv
}

/// Reading a written header back gives its connection id, its key and the low
/// 24 bits of its length; a length up to `MSGMAXSIZE` comes back whole, under
/// the type `'M'`.
pub proof fn lemma_write_read_hdr_with_key(len: usize, key: u64)
    ensures
        spec_write_hdr_with_key(len, key).len() == HDRKEYL,
        spec_read_cid(spec_write_hdr_with_key(len, key)) == spec_select_cid(key),
        spec_read_key(spec_write_hdr_with_key(len, key)) == key,
        len <= MSGMAXSIZE ==> spec_read_hdr_type(spec_write_hdr_with_key(len, key)) == MSG_TYPE,
        spec_read_hdr_len(spec_write_hdr_with_key(len, key)) == (len as u32 & 0xffffffu32) as usize,
        len <= MSGMAXSIZE ==> spec_read_hdr_len(spec_write_hdr_with_key(len, key)) == len,
{
    let s = spec_write_hdr_with_key(len, key);
    let w = spec_hdr_word(len);
    lemma_be32_roundtrip(w);
    lemma_be32_roundtrip(spec_select_cid(key));
    lemma_be64_roundtrip(key);
    assert(s.subrange(0, 4) =~= be32(w));
    assert(s.subrange(4, 8) =~= be32(spec_select_cid(key)));
    assert(s.subrange(8, 16) =~= be64(key));
    assert(from_be32(s, 0) == from_be32(be32(w), 0));
    assert(from_be32(s, 4) == from_be32(be32(spec_select_cid(key)), 0));
    assert(from_be32(s, 8) == from_be32(be64(key), 0));
    assert(from_be32(s, 12) == from_be32(be64(key), 4));
    let l = len as u32;
    if len < 0x1000000 {
        assert(l < 0x1000000);
        assert(((77u32 << 24u32) | l) >> 24u32 == 77u32) by (bit_vector)
            requires
                l < 0x1000000,
        ;
    }
    assert(((77u32 << 24u32) | l) & 0xffffffu32 == l & 0xffffffu32) by (bit_vector);
    if len <= MSGMAXSIZE {
        assert(l & 0xffffffu32 == l) by (bit_vector)
            requires
                l < 0x1000000,
        ;
    }
}

// ---------------------------------------------------------------------------
// MsgHdr
// ---------------------------------------------------------------------------

/// A length up to `MSGMAXSIZE` is its own low 24 bits.
pub proof fn lemma_len_fits(len: u32)
    ensures
        len <= MSGMAXSIZE ==> len & 0xffffffu32 == len,
        len & 0xffffffu32 <= MSGMAXSIZE,
{
    assert(len <= 0xffffff ==> len & 0xffffffu32 == len) by (bit_vector);
    assert(len & 0xffffffu32 <= 0xffffff) by (bit_vector);
}

/// The header of an Mles message: the type byte `'M'` and the length of the
/// encoded data, the connection id and the SipHash key. Encoded headers are
/// in network byte order.
pub struct MsgHdr {
    thlen: u32,
    cid: u32,
    key: u64,
}

/// What a header holds: its 24-bit length, its connection id and its key.
pub struct MsgHdrView {
    pub len: u32,
    pub cid: u32,
    pub key: u64,
}

impl View for MsgHdr {
    type V = MsgHdrView;

    closed spec fn view(&self) -> MsgHdrView {
        MsgHdrView { len: self.thlen & 0xffffffu32, cid: self.cid, key: self.key }
    }
}

impl MsgHdr {
    #[verifier::type_invariant]
    spec fn typed(self) -> bool {
        self.thlen >> 24u32 == MSG_TYPE
    }

    /// The bytes of the encoded header, as `encode` writes them.
    pub open spec fn spec_encode(self) -> Seq<u8> {
        spec_write_hdr(self@.len as usize, self@.cid) + be64(self@.key)
    }

    /// Creates a header with length `len` (its low 24 bits), id `cid` and key `key`.
    pub fn new(len: u32, cid: u32, key: u64) -> (r: MsgHdr)
        ensures
            r@ == (MsgHdrView { len: len & 0xffffffu32, cid, key }),
            len <= MSGMAXSIZE ==> r@.len == len,
    {
        proof {
            lemma_len_fits(len);
        }
        MsgHdr { thlen: hdr_set_len(len), cid: cid, key: key }
    }

    /// The type of the header, always `'M'`.
    pub fn get_type(&self) -> (r: u8)
        ensures
            r == 77u8,
    {
        proof {
            use_type_invariant(self);
        }
        hdr_get_type(self.thlen)
    }

    /// The size of a header with its key on the line.
    pub fn get_hdrkey_len() -> (r: usize)
        ensures
            r == HDRKEYL,
    {
        HDRKEYL
    }

    /// Sets the length (its low 24 bits).
    pub fn set_len(&mut self, len: u32)
        ensures
            final(self)@ == (MsgHdrView { len: len & 0xffffffu32, ..old(self)@ }),
            len <= MSGMAXSIZE ==> final(self)@.len == len,
    {
        proof {
            lemma_len_fits(len);
        }
        self.thlen = hdr_set_len(len);
    }

    /// The length.
    pub fn get_len(&self) -> (r: u32)
        ensures
            r == self@.len,
            r <= 0xffffff,
    {
        hdr_get_len(self.thlen)
    }

    /// Sets the connection id.
    pub fn set_cid(&mut self, cid: u32)
        ensures
            final(self)@ == (MsgHdrView { cid, ..old(self)@ }),
    {
        proof {
            use_type_invariant(&*self);
        }
        self.cid = cid;
    }

    /// The connection id.
    pub fn get_cid(&self) -> (r: u32)
        ensures
            r == self@.cid,
    {
        self.cid
    }

    /// Sets the key.
    pub fn set_key(&mut self, key: u64)
        ensures
            final(self)@ == (MsgHdrView { key, ..old(self)@ }),
    {
        proof {
            use_type_invariant(&*self);
        }
        self.key = key;
    }

    /// The key.
    pub fn get_key(&self) -> (r: u64)
        ensures
            r == self@.key,
    {
        self.key
    }

    /// Encodes the header and its key to line format; reading the bytes
    /// back gives the type `'M'`, the length, the connection id and the key.
    pub fn encode(&self) -> (r: Vec<u8>)
        ensures
            r@ == self.spec_encode(),
            r@.len() == HDRKEYL,
            spec_read_hdr_type(r@) == MSG_TYPE,
            spec_read_hdr_len(r@) == self@.len as usize,
            spec_read_cid(r@) == self@.cid,
            spec_read_key(r@) == self@.key,
    {
        proof {
            lemma_decode_encode(*self);
        }
        let mut msgv = write_hdr(self.get_len() as usize, self.get_cid());
        let mut keyv = write_key(self.get_key());
        msgv.append(&mut keyv);
        msgv
    }

    /// Decodes a header and its key from line format. Fields that `buf` is
    /// too short to hold read as 0.
    pub fn decode(buf: Vec<u8>) -> (r: MsgHdr)
        ensures
            r@ == (MsgHdrView {
                len: spec_read_hdr_len(buf@) as u32,
                cid: spec_read_cid(buf@),
                key: spec_read_key(buf@),
            }),
            r@.len <= MSGMAXSIZE,
    {
        let len = read_hdr_len(buf.as_slice());
        let r = MsgHdr::new(len as u32, read_cid_from_hdr(buf.as_slice()), read_key_from_hdr(buf.as_slice()));
        let l = len as u32;
        assert(l & 0xffffffu32 == l) by (bit_vector)
            requires
                l <= 0xffffff,
        ;
        r
    }

    /// The connection id for a key: its low 32 bits.
    pub fn select_cid(key: u64) -> (r: u32)
        ensures
            r == spec_select_cid(key),
    {
        key as u32
    }

    /// The text of a socket address: `a.b.c.d:port` for IPv4, the eight
    /// segments in lower-case hexadecimal, in brackets, then `:port` for IPv6.
    pub fn addr2str(addr: &HostAddr, port: u16) -> (r: String)
        ensures
            r@ == spec_addr_str(*addr, port),
    {
        addr_str(addr, port)
    }
}

/// Decoding an encoded header gives it back: its length, its connection id
/// and its key, under the type `'M'`.
pub proof fn lemma_decode_encode(h: MsgHdr)
    ensures
        h.spec_encode().len() == HDRKEYL,
        spec_read_hdr_len(h.spec_encode()) == h@.len as usize,
        spec_read_cid(h.spec_encode()) == h@.cid,
        spec_read_key(h.spec_encode()) == h@.key,
        spec_read_hdr_type(h.spec_encode()) == MSG_TYPE,
{
    let len = h@.len as usize;
    let s = h.spec_encode();
    let w = spec_hdr_word(len);
    lemma_be32_roundtrip(w);
    lemma_be32_roundtrip(h@.cid);
    lemma_be64_roundtrip(h@.key);
    assert(s.subrange(0, 4) =~= be32(w));
    assert(s.subrange(4, 8) =~= be32(h@.cid));
    assert(s.subrange(8, 16) =~= be64(h@.key));
    assert(from_be32(s, 0) == from_be32(be32(w), 0));
    assert(from_be32(s, 4) == from_be32(be32(h@.cid), 0));
    assert(from_be32(s, 8) == from_be32(be64(h@.key), 0));
    assert(from_be32(s, 12) == from_be32(be64(h@.key), 4));
    let l = h@.len;
    let t = h.thlen;
    assert(l <= 0xffffff) by (bit_vector)
        requires
            l == t & 0xffffffu32,
    ;
    assert(((77u32 << 24u32) | l) >> 24u32 == 77u32) by (bit_vector)
        requires
            l <= 0xffffff,
    ;
    assert(((77u32 << 24u32) | l) & 0xffffffu32 == l) by (bit_vector)
        requires
            l <= 0xffffff,
    ;
    assert(len as u32 == l);
}

/// Rewriting a header's length changes only its first word: the result is as
/// long as the header, every byte after the first four is kept, so the
/// connection id and the key read back unchanged, and a length up to
/// `MSGMAXSIZE` reads back as written under the type `'M'`; a header too
/// short to hold an id gives nothing.
pub proof fn lemma_write_len_keeps_id_and_key(len: usize, hdrv: Seq<u8>)
    ensures
        hdrv.len() < HDRL ==> spec_write_len_to_hdr(len, hdrv).len() == 0,
        hdrv.len() >= HDRL ==> {
            let r = spec_write_len_to_hdr(len, hdrv);
            &&& r.len() == hdrv.len()
            &&& r.subrange(4, r.len() as int) == hdrv.subrange(4, hdrv.len() as int)
            &&& spec_read_cid(r) == spec_read_cid(hdrv)
            &&& spec_read_key(r) == spec_read_key(hdrv)
            &&& len <= MSGMAXSIZE ==> spec_read_hdr_len(r) == len && spec_read_hdr_type(r) == MSG_TYPE
        },
{
    if hdrv.len() >= HDRL {
        let r = spec_write_len_to_hdr(len, hdrv);
        let w = spec_hdr_word(len);
        lemma_be32_roundtrip(w);
        assert(r.subrange(4, r.len() as int) =~= hdrv.subrange(4, hdrv.len() as int));
        assert(forall|i: int| 4 <= i < r.len() ==> r[i] == hdrv[i]) by {
            assert forall|i: int| 4 <= i < r.len() implies r[i] == hdrv[i] by {
                assert(r[i] == hdrv.subrange(4, hdrv.len() as int)[i - 4]);
            }
        }
        assert(from_be32(r, 0) == from_be32(be32(w), 0)) by {
            assert(r[0] == be32(w)[0]);
            assert(r[1] == be32(w)[1]);
            assert(r[2] == be32(w)[2]);
            assert(r[3] == be32(w)[3]);
        }
        let l = len as u32;
        if len <= MSGMAXSIZE {
            assert(((77u32 << 24u32) | l) >> 24u32 == 77u32 && ((77u32 << 24u32) | l) & 0xffffffu32 == l)
                by (bit_vector)
                requires
                    l <= 0xffffff,
            ;
        }
    }
}

} // verus!
