use live_osc::error::OscError;
use live_osc::wire::{decode, encode, is_valid_message, OscArg, WireMessage};
use rosc::{OscMessage, OscPacket, OscType};

fn msg(addr: &str, args: Vec<OscArg>) -> WireMessage {
    WireMessage { address: addr.as_bytes().to_vec(), args }
}

fn to_rosc(m: &WireMessage) -> OscPacket {
    let args = m
        .args
        .iter()
        .map(|a| match a {
            OscArg::Int(v) => OscType::Int(*v),
            OscArg::Float(bits) => OscType::Float(f32::from_bits(*bits)),
            OscArg::Str(s) => OscType::String(String::from_utf8(s.clone()).unwrap()),
            OscArg::Bool(b) => OscType::Bool(*b),
        })
        .collect();
    OscPacket::Message(OscMessage { addr: String::from_utf8(m.address.clone()).unwrap(), args })
}

fn samples() -> Vec<WireMessage> {
    vec![
        msg("/live/test", vec![]),
        msg("/a", vec![OscArg::Int(7)]),
        msg("/abc", vec![OscArg::Int(-1), OscArg::Int(i32::MIN), OscArg::Int(i32::MAX)]),
        msg("/live/song/set/tempo", vec![OscArg::Float(128.0f32.to_bits())]),
        msg(
            "/mixed/args",
            vec![
                OscArg::Str(b"".to_vec()),
                OscArg::Str(b"abc".to_vec()),
                OscArg::Str(b"abcd".to_vec()),
                OscArg::Bool(true),
                OscArg::Bool(false),
                OscArg::Float((-4.9f32).to_bits()),
                OscArg::Int(42),
            ],
        ),
    ]
}

#[test]
fn round_trip_restores_message() {
    for m in samples() {
        let bytes = encode(&m).unwrap();
        assert_eq!(decode(&bytes), Ok(m));
    }
}

#[test]
fn encoding_matches_rosc() {
    for m in samples() {
        let ours = encode(&m).unwrap();
        let theirs = rosc::encoder::encode(&to_rosc(&m)).unwrap();
        assert_eq!(ours, theirs);
    }
}

#[test]
fn decodes_rosc_frames() {
    for m in samples() {
        let theirs = rosc::encoder::encode(&to_rosc(&m)).unwrap();
        assert_eq!(decode(&theirs), Ok(m));
    }
}

#[test]
fn query_frame_bytes() {
    let bytes = encode(&msg("/a", vec![OscArg::Int(258)])).unwrap();
    assert_eq!(bytes, vec![b'/', b'a', 0, 0, b',', b'i', 0, 0, 0, 0, 1, 2]);
}

#[test]
fn decode_empty_fails() {
    assert_eq!(decode(&vec![]), Err(OscError::Decode));
}

#[test]
fn decode_every_truncation_fails() {
    for m in samples() {
        let bytes = encode(&m).unwrap();
        for k in 0..bytes.len() {
            assert_eq!(decode(&bytes[..k].to_vec()), Err(OscError::Decode), "prefix {}", k);
        }
    }
}

#[test]
fn decode_trailing_bytes_fails() {
    let mut bytes = encode(&msg("/a", vec![OscArg::Int(1)])).unwrap();
    bytes.extend_from_slice(&[0, 0, 0, 0]);
    assert_eq!(decode(&bytes), Err(OscError::Decode));
}

#[test]
fn decode_bundle_fails() {
    let mut bytes = b"#bundle\0".to_vec();
    bytes.extend_from_slice(&[0, 0, 0, 0, 0, 0, 0, 1]);
    assert_eq!(decode(&bytes), Err(OscError::Decode));
}

#[test]
fn decode_unknown_tag_fails() {
    let bytes = vec![b'/', b'a', 0, 0, b',', b'h', 0, 0, 0, 0, 0, 0, 0, 0, 0, 1];
    assert_eq!(decode(&bytes), Err(OscError::Decode));
}

#[test]
fn decode_bad_padding_fails() {
    let bytes = vec![b'/', b'a', 0, 1, b',', 0, 0, 0];
    assert_eq!(decode(&bytes), Err(OscError::Decode));
}

#[test]
fn decode_missing_type_tags_fails() {
    let bytes = vec![b'/', b'a', 0, 0];
    assert_eq!(decode(&bytes), Err(OscError::Decode));
}

#[test]
fn encode_rejects_invalid_messages() {
    assert_eq!(encode(&msg("", vec![])), Err(OscError::Encode));
    assert_eq!(encode(&msg("live", vec![])), Err(OscError::Encode));
    assert_eq!(encode(&msg("/a\0b", vec![])), Err(OscError::Encode));
    assert_eq!(encode(&msg("/a", vec![OscArg::Str(vec![b'x', 0])])), Err(OscError::Encode));
    assert!(!is_valid_message(&msg("", vec![])));
    assert!(is_valid_message(&msg("/a", vec![OscArg::Str(b"x".to_vec())])));
}
