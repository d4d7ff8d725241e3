use synmon::codec::decode_string;
use synmon::codec::decode_varint;
use synmon::codec::encode_string;
use synmon::codec::encode_varint;
use synmon::codec::sizeof_string;
use synmon::codec::sizeof_varint;
use synmon::packet::constants;
use synmon::packet::Packet;
use synmon::packet::ShowIdentity;

#[test]
fn packet_test() {
    let mut bytes: Vec<u8> = Vec::new();
    encode_varint(u32::MAX >> 2, &mut bytes);
    println!("{:?}", bytes.clone());
    assert_eq!(decode_varint(&bytes, 0).unwrap().0, u32::MAX >> 2);
    println!("{:?}", bytes.clone());
    println!("=======================");
    let mut bytes: Vec<u8> = Vec::new();
    encode_string("你好", &mut bytes);
    println!("{:?}", bytes.clone());
    assert_eq!(decode_string(&bytes, 0).map(|x| x.0), Some(String::from("你好")));
    println!("{:?}", bytes.clone());
    println!("=======================");
    let mut bytes: Vec<u8> = Vec::new();
    let p1 = Packet {
        length: 5,
        id: constants::SHOW_IDENTITY,
        data: {
            let mut b: Vec<u8> = Vec::new();
            ShowIdentity { category: constants::CATEGORY_CLIENT, token: String::from("aaa") }
                .write_to_bytes(&mut b);
            b
        },
    };
    p1.write_to_bytes(&mut bytes);
    println!("{:?}", bytes.clone());
    let (p2, _) = Packet::read_from_bytes(&bytes, 0).unwrap();
    println!("{:?}", ShowIdentity::read_from_bytes(&p2.data, 0));
    println!("{:?}", bytes.clone());
}

#[test]
fn varint_round_trip_values() {
    for v in [0u32, 1, 127, 128, 300, 16383, 16384, 2097151, 2097152, u32::MAX] {
        let mut bytes: Vec<u8> = Vec::new();
        encode_varint(v, &mut bytes);
        assert_eq!(bytes.len(), sizeof_varint(v));
        let (back, n) = decode_varint(&bytes, 0).unwrap();
        assert_eq!(back, v);
        assert_eq!(n, bytes.len());
    }
}

#[test]
fn varint_sizes() {
    assert_eq!(sizeof_varint(0), 1);
    assert_eq!(sizeof_varint(127), 1);
    assert_eq!(sizeof_varint(128), 2);
    assert_eq!(sizeof_varint(16383), 2);
    assert_eq!(sizeof_varint(16384), 3);
    assert_eq!(sizeof_varint(u32::MAX), 5);
    assert_eq!(sizeof_string("abc"), 4);
    assert_eq!(sizeof_string(""), 1);
}

#[test]
fn varint_accepts_non_minimal_but_reencodes_minimal() {
    // a two-byte encoding of zero: decoding accepts it ...
    let bytes = vec![0x80u8, 0x00];
    let (v, n) = decode_varint(&bytes, 0).unwrap();
    assert_eq!(v, 0);
    assert_eq!(n, 2);
    // ... and the canonical encoding is shorter
    let mut canonical: Vec<u8> = Vec::new();
    encode_varint(0, &mut canonical);
    assert_eq!(canonical, vec![0x00u8]);
}

#[test]
fn varint_insufficient() {
    let bytes = vec![0x80u8];
    assert!(decode_varint(&bytes, 0).is_none());
    let empty: Vec<u8> = Vec::new();
    assert!(decode_varint(&empty, 0).is_none());
}

#[test]
fn string_rejects_truncation_and_bad_utf8() {
    // declared length 5, only one byte behind it
    let bytes = vec![5u8, b'a'];
    assert!(decode_string(&bytes, 0).is_none());
    // two bytes that are not UTF-8
    let bytes = vec![2u8, 0xFF, 0xFF];
    assert!(decode_string(&bytes, 0).is_none());
}

#[test]
fn packet_framing_exact_consumption() {
    // length 3, id 1, three payload bytes, then trailing garbage
    let bytes = vec![3u8, 1, 9, 8, 7, 0xAA, 0xBB];
    let (p, n) = Packet::read_from_bytes(&bytes, 0).unwrap();
    assert_eq!(p.length, 3);
    assert_eq!(p.id, 1);
    assert_eq!(p.data, vec![9u8, 8, 7]);
    assert_eq!(n, 5);
}

#[test]
fn packet_framing_rejects_overlong_length() {
    // length 5 declared, only three payload bytes available
    let bytes = vec![5u8, 1, 9, 8, 7];
    assert!(Packet::read_from_bytes(&bytes, 0).is_none());
    // no id at all
    let bytes = vec![5u8];
    assert!(Packet::read_from_bytes(&bytes, 0).is_none());
}

#[test]
fn packet_round_trip_with_payload() {
    let si = ShowIdentity { category: constants::CATEGORY_ADMIN, token: String::from("tok") };
    let p = si.to_packet();
    assert_eq!(p.id, constants::SHOW_IDENTITY);
    let bytes = p.to_bytes();
    let (p2, n) = Packet::read_from_bytes(&bytes, 0).unwrap();
    assert_eq!(n, bytes.len());
    let (si2, _) = ShowIdentity::read_from_bytes(&p2.data, 0).unwrap();
    assert_eq!(si2, si);
}
