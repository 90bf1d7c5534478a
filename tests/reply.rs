use live_osc::error::OscError;
use live_osc::reply::{
    extract_bool_from_response, extract_float_from_response, extract_int_from_response,
    extract_int_strict, float_bits_to_i32,
};
use live_osc::wire::{OscArg, WireMessage};

fn reply(args: Vec<OscArg>) -> WireMessage {
    WireMessage { address: b"/live/song/get/tempo".to_vec(), args }
}

#[test]
fn lenient_int_truncates_float() {
    assert_eq!(extract_int_from_response(&reply(vec![OscArg::Float(4.9f32.to_bits())])), Ok(4));
    assert_eq!(extract_int_from_response(&reply(vec![OscArg::Float((-4.9f32).to_bits())])), Ok(-4));
    assert_eq!(extract_int_from_response(&reply(vec![OscArg::Int(12)])), Ok(12));
}

#[test]
fn strict_int_rejects_float() {
    assert_eq!(extract_int_strict(&reply(vec![OscArg::Float(4.9f32.to_bits())])), Err(OscError::Decode));
    assert_eq!(extract_int_strict(&reply(vec![OscArg::Int(-3)])), Ok(-3));
    assert_eq!(extract_int_strict(&reply(vec![])), Err(OscError::Decode));
}

#[test]
fn int_rejects_other_tags() {
    assert_eq!(extract_int_from_response(&reply(vec![OscArg::Bool(true)])), Err(OscError::Decode));
    assert_eq!(extract_int_from_response(&reply(vec![OscArg::Str(b"4".to_vec())])), Err(OscError::Decode));
    assert_eq!(extract_int_from_response(&reply(vec![])), Err(OscError::Decode));
}

#[test]
fn bool_accepts_bool_and_int() {
    assert_eq!(extract_bool_from_response(&reply(vec![OscArg::Bool(true)])), Ok(true));
    assert_eq!(extract_bool_from_response(&reply(vec![OscArg::Bool(false)])), Ok(false));
    assert_eq!(extract_bool_from_response(&reply(vec![OscArg::Int(0)])), Ok(false));
    assert_eq!(extract_bool_from_response(&reply(vec![OscArg::Int(5)])), Ok(true));
    assert_eq!(extract_bool_from_response(&reply(vec![OscArg::Int(-1)])), Ok(true));
    assert_eq!(extract_bool_from_response(&reply(vec![OscArg::Float(1.0f32.to_bits())])), Err(OscError::Decode));
    assert_eq!(extract_bool_from_response(&reply(vec![])), Err(OscError::Decode));
}

#[test]
fn float_takes_float_tag_only() {
    let bits = 120.5f32.to_bits();
    assert_eq!(extract_float_from_response(&reply(vec![OscArg::Float(bits), OscArg::Int(1)])), Ok(bits));
    assert_eq!(extract_float_from_response(&reply(vec![OscArg::Int(120)])), Err(OscError::Decode));
    assert_eq!(extract_float_from_response(&reply(vec![])), Err(OscError::Decode));
}

#[test]
fn float_truncation_matches_cast() {
    let values = [
        0.0f32, -0.0, 0.5, -0.5, 1.0, 4.9, -4.9, 127.99, 8388607.5, 16777216.0, 2147483520.0,
        2147483648.0, -2147483648.0, -2147483904.0, 1e20, -1e20, f32::INFINITY,
        f32::NEG_INFINITY, f32::NAN, f32::MIN_POSITIVE, 1e-40, 3.0e9,
    ];
    for v in values {
        assert_eq!(float_bits_to_i32(v.to_bits()), v as i32, "value {}", v);
    }
}
