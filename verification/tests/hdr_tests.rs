use mles::addr::HostAddr;
use mles::hdr::{
    hdr_get_len, hdr_get_type, hdr_set_len, read_cid_from_hdr, read_hdr_len, read_hdr_type,
    read_key_from_hdr, write_hdr, write_hdr_with_key, write_hdr_without_cid, write_key,
    write_len_to_hdr, MsgHdr, HDRKEYL,
};

#[test]
fn test_cid() {
    let orig_key = 0xffeffe;
    let hdrv = write_hdr_with_key(64, orig_key);
    let orig_len = hdrv.len();
    let key = read_key_from_hdr(&hdrv);
    assert_eq!(orig_key, key);
    let read_cid = read_cid_from_hdr(&hdrv);
    assert_eq!(orig_key as u32, read_cid);
    let key = read_key_from_hdr(&hdrv);
    assert_eq!(orig_key, key);
    let len = hdrv.len();
    assert_eq!(orig_len, len);
}

#[test]
fn hdr_type_and_len_pack() {
    let thlen = hdr_set_len(0x123456);
    assert_eq!(thlen, (77u32 << 24) | 0x123456);
    assert_eq!(hdr_get_type(thlen), b'M');
    assert_eq!(hdr_get_len(thlen), 0x123456);
}

#[test]
fn hdr_len_is_masked_to_24_bits() {
    let thlen = hdr_set_len(0x1abcdef);
    assert_eq!(hdr_get_len(thlen), 0xabcdef);
}

#[test]
fn write_hdr_layout() {
    let v = write_hdr(5, 0x01020304);
    assert_eq!(v, vec![b'M', 0, 0, 5, 1, 2, 3, 4]);
    assert_eq!(read_hdr_type(&v), 77);
    assert_eq!(read_hdr_len(&v), 5);
    assert_eq!(read_cid_from_hdr(&v), 0x01020304);
}

#[test]
fn write_hdr_without_cid_layout() {
    let v = write_hdr_without_cid(300);
    assert_eq!(v, vec![b'M', 0, 1, 44]);
}

#[test]
fn write_key_is_big_endian() {
    assert_eq!(write_key(0x0102030405060708), vec![1, 2, 3, 4, 5, 6, 7, 8]);
}

#[test]
fn write_hdr_with_key_layout() {
    let v = write_hdr_with_key(2, 0x1122334455667788);
    assert_eq!(v.len(), HDRKEYL);
    assert_eq!(
        v,
        vec![b'M', 0, 0, 2, 0x55, 0x66, 0x77, 0x88, 0x11, 0x22, 0x33, 0x44, 0x55, 0x66, 0x77, 0x88]
    );
    assert_eq!(read_key_from_hdr(&v), 0x1122334455667788);
}

#[test]
fn write_len_to_hdr_rewrites_length() {
    let v = write_hdr_with_key(2, 7);
    let v = write_len_to_hdr(0x10203, v);
    assert_eq!(&v[0..4], &[b'M', 1, 2, 3]);
    assert_eq!(read_hdr_len(&v), 0x10203);
    assert_eq!(read_key_from_hdr(&v), 7);
    assert_eq!(read_hdr_type(&v), 77);
}

#[test]
fn read_hdr_len_keeps_twenty_four_bits() {
    let v = write_hdr(0x12345, 0);
    assert_eq!(read_hdr_len(&v), 0x12345);
    let v = write_hdr(0xffffff, 0);
    assert_eq!(read_hdr_len(&v), 0xffffff);
    assert_eq!(read_hdr_type(&v), 77);
}

#[test]
fn msghdr_decode_encode_large_length() {
    for len in [4096u32, 0x10000, 0xffffff] {
        let h = MsgHdr::new(len, 5, 0xabcdef);
        let d = MsgHdr::decode(h.encode());
        assert_eq!(d.get_len(), len);
        assert_eq!(d.get_cid(), 5);
        assert_eq!(d.get_key(), 0xabcdef);
    }
}

#[test]
fn msghdr_select_cid() {
    assert_eq!(MsgHdr::select_cid(0x1000000100000001), 0x00000001);
}

#[test]
fn msghdr_encode_decode_roundtrip() {
    let mut hdr = MsgHdr::new(0x123, 0x55, 0x1122334455667788);
    assert_eq!(hdr.get_type(), b'M');
    assert_eq!(hdr.get_len(), 0x123);
    assert_eq!(hdr.get_cid(), 0x55);
    assert_eq!(hdr.get_key(), 0x1122334455667788);
    hdr.set_len(0x456);
    hdr.set_cid(9);
    hdr.set_key(10);
    let encoded = hdr.encode();
    assert_eq!(encoded.len(), MsgHdr::get_hdrkey_len());
    let decoded = MsgHdr::decode(encoded);
    assert_eq!(decoded.get_len(), 0x456);
    assert_eq!(decoded.get_cid(), 9);
    assert_eq!(decoded.get_key(), 10);
}

#[test]
fn msghdr_decode_short_buffer_is_empty_header() {
    let decoded = MsgHdr::decode(vec![1, 2, 3]);
    assert_eq!(decoded.get_len(), 0);
    assert_eq!(decoded.get_cid(), 0);
    assert_eq!(decoded.get_key(), 0);
}

#[test]
fn msghdr_addr2str() {
    assert_eq!(MsgHdr::addr2str(&HostAddr::V4([127, 0, 0, 1]), 8080), "127.0.0.1:8080");
    assert_eq!(
        MsgHdr::addr2str(&HostAddr::V6([0xff03, 0, 0, 0, 0, 0, 0, 1]), 8077),
        "[ff03:0:0:0:0:0:0:1]:8077"
    );
    assert_eq!(
        MsgHdr::addr2str(&HostAddr::V4([255, 10, 200, 0]), 65535),
        "255.10.200.0:65535"
    );
    assert_eq!(
        MsgHdr::addr2str(&HostAddr::V6([0xabcd, 0x10, 0xffff, 0, 0, 0, 0, 0x1f]), 0),
        "[abcd:10:ffff:0:0:0:0:1f]:0"
    );
}
