//! Reading a typed value out of the first argument of a reply.

use vstd::arithmetic::power2::{
    lemma2_to64,
    lemma_pow2_strictly_increases,
    lemma_pow2_pos,
    lemma_pow2_unfold,
    pow2,
};
use vstd::prelude::*;

use crate::error::OscError;
use crate::wire::{ArgView, MessageView, OscArg, WireMessage};

verus! {

/// Biased exponent of an IEEE-754 single.
pub open spec fn float_exponent(bits: u32) -> int {
    (bits / 0x80_0000) as int % 0x100
}

/// Fraction field of an IEEE-754 single.
pub open spec fn float_fraction(bits: u32) -> int {
    bits as int % 0x80_0000
}

pub open spec fn float_is_nan(bits: u32) -> bool {
    float_exponent(bits) == 0xff && float_fraction(bits) != 0
}

/// Magnitude of a finite single, rounded toward zero (zero for subnormals);
/// for an infinity a value beyond every 32-bit integer.
pub open spec fn float_magnitude(bits: u32) -> int {
    let e = float_exponent(bits);
    let sig = float_fraction(bits) + 0x80_0000;
    if e == 0 {
        0
    } else if e >= 150 {
        sig * pow2((e - 150) as nat)
    } else {
        sig / (pow2((150 - e) as nat) as int)
    }
}

pub open spec fn saturate_i32(v: int) -> i32 {
    if v > i32::MAX {
        i32::MAX
    } else if v < i32::MIN {
        i32::MIN
    } else {
        v as i32
    }
}

/// The single with bit pattern `bits` truncated toward zero to a 32-bit
/// integer: out-of-range values saturate and NaN gives zero.
pub open spec fn float_to_i32(bits: u32) -> i32 {
    if float_is_nan(bits) {
        0
    } else if bits >= 0x8000_0000 {
        saturate_i32(-float_magnitude(bits))
    } else {
        saturate_i32(float_magnitude(bits))
    }
}

/// A float first argument, by bit pattern.
pub open spec fn float_arg(m: MessageView) -> Result<u32, OscError> {
    if m.args.len() > 0 && m.args[0] is Float {
        Ok(m.args[0]->Float_0)
    } else {
        Err(OscError::Decode)
    }
}

/// An integer first argument, or a float one truncated toward zero.
pub open spec fn int_arg(m: MessageView) -> Result<i32, OscError> {
    if m.args.len() == 0 {
        Err(OscError::Decode)
    } else {
        match m.args[0] {
            ArgView::Int(v) => Ok(v),
            ArgView::Float(bits) => Ok(float_to_i32(bits)),
            _ => Err(OscError::Decode),
        }
    }
}

/// An integer first argument only.
pub open spec fn strict_int_arg(m: MessageView) -> Result<i32, OscError> {
    if m.args.len() > 0 && m.args[0] is Int {
        Ok(m.args[0]->Int_0)
    } else {
        Err(OscError::Decode)
    }
}

/// A boolean first argument, or an integer one read as nonzero.
pub open spec fn bool_arg(m: MessageView) -> Result<bool, OscError> {
    if m.args.len() == 0 {
        Err(OscError::Decode)
    } else {
        match m.args[0] {
            ArgView::Bool(b) => Ok(b),
            ArgView::Int(v) => Ok(v != 0),
            _ => Err(OscError::Decode),
        }
    }
}

/// On a float-tagged first argument the strict integer reading fails, and
/// the lenient one gives the float truncated toward zero.
pub proof fn lemma_int_readings_of_float(m: MessageView)
    requires
        m.args.len() > 0,
        m.args[0] is Float,
    ensures
        strict_int_arg(m) == Err::<i32, OscError>(OscError::Decode),
        int_arg(m) == Ok::<i32, OscError>(float_to_i32(m.args[0]->Float_0)),
{
}

fn pow2_u64(n: u64) -> (r: u64)
    requires
        n <= 24,
    ensures
        r == pow2(n as nat),
{
    proof {
        lemma2_to64();
    }
    let mut p: u64 = 1;
    let mut k: u64 = 0;
    while k < n
        invariant
            k <= n <= 24,
            p == pow2(k as nat),
        decreases n - k,
    {
        proof {
            lemma2_to64();
            lemma_pow2_unfold((k + 1) as nat);
            if k + 1 < 24 {
                lemma_pow2_strictly_increases((k + 1) as nat, 24);
            }
        }
        p = p * 2;
        k = k + 1;
    }
    p
}

/// Truncates the single with bit pattern `bits` toward zero, as a numeric
/// cast does: saturating, and zero for NaN.
pub fn float_bits_to_i32(bits: u32) -> (r: i32)
    ensures
        r == float_to_i32(bits),
{
    let e: u32 = (bits / 0x80_0000) % 0x100;
    let frac: u32 = bits % 0x80_0000;
    let neg = bits >= 0x8000_0000;
    if e == 0xff && frac != 0 {
        return 0;
    }
    if e == 0 {
        return 0;
    }
    let sig: u64 = frac as u64 + 0x80_0000;
    if e >= 158 {
        proof {
            lemma2_to64();
            if e > 158 {
                lemma_pow2_strictly_increases(8, (e - 150) as nat);
            }
            let p = pow2((e - 150) as nat);
            assert(sig * p >= 0x80_0000 * 0x100) by (nonlinear_arith)
                requires
                    sig >= 0x80_0000,
                    p >= 0x100,
            ;
        }
        return if neg { i32::MIN } else { i32::MAX };
    }
    let mag: u64;
    if e >= 150 {
        let p = pow2_u64((e - 150) as u64);
        proof {
            lemma2_to64();
            assert(p <= 0x80);
            assert(sig * p <= 0xff_ffff * 0x80) by (nonlinear_arith)
                requires
                    sig <= 0xff_ffff,
                    p <= 0x80,
            ;
        }
        mag = sig * p;
    } else if e >= 127 {
        let p = pow2_u64((150 - e) as u64);
        proof {
            lemma_pow2_pos((150 - e) as nat);
        }
        mag = sig / p;
        proof {
            assert(mag <= sig) by (nonlinear_arith)
                requires
                    p >= 1,
                    mag == sig / p,
            ;
        }
    } else {
        proof {
            lemma2_to64();
            if 150 - e > 24 {
                lemma_pow2_strictly_increases(24, (150 - e) as nat);
            }
        }
        mag = 0;
        proof {
            let p = pow2((150 - e) as nat) as int;
            let g = sig as int;
            assert(g / p == 0) by (nonlinear_arith)
                requires
                    0 <= g < p,
            ;
        }
    }
    assert(float_exponent(bits) == e);
    assert(float_fraction(bits) == frac);
    assert(mag == float_magnitude(bits));
    assert(mag <= 0x7fff_ff80);
    if neg {
        -(mag as i32)
    } else {
        mag as i32
    }
}

/// The first argument as a float, by bit pattern; `Decode` unless it is
/// float-tagged.
pub fn extract_float_from_response(msg: &WireMessage) -> (r: Result<u32, OscError>)
    ensures
        r == float_arg(msg@),
{
    if msg.args.len() == 0 {
        return Err(OscError::Decode);
    }
    match &msg.args[0] {
        OscArg::Float(v) => Ok(*v),
        _ => Err(OscError::Decode),
    }
}

/// The first argument as an integer, accepting an integer tag or a float
/// truncated toward zero; `Decode` for any other first argument.
pub fn extract_int_from_response(msg: &WireMessage) -> (r: Result<i32, OscError>)
    ensures
        r == int_arg(msg@),
{
    if msg.args.len() == 0 {
        return Err(OscError::Decode);
    }
    match &msg.args[0] {
        OscArg::Int(v) => Ok(*v),
        OscArg::Float(bits) => Ok(float_bits_to_i32(*bits)),
        _ => Err(OscError::Decode),
    }
}

/// The first argument as an integer, accepting an integer tag only.
pub fn extract_int_strict(msg: &WireMessage) -> (r: Result<i32, OscError>)
    ensures
        r == strict_int_arg(msg@),
{
    if msg.args.len() == 0 {
        return Err(OscError::Decode);
    }
    match &msg.args[0] {
        OscArg::Int(v) => Ok(*v),
        _ => Err(OscError::Decode),
    }
}

/// The first argument as a boolean: a boolean tag as it is, an integer as
/// nonzero; `Decode` for any other first argument.
pub fn extract_bool_from_response(msg: &WireMessage) -> (r: Result<bool, OscError>)
    ensures
        r == bool_arg(msg@),
{
    if msg.args.len() == 0 {
        return Err(OscError::Decode);
    }
    match &msg.args[0] {
        OscArg::Int(v) => Ok(*v != 0),
        OscArg::Bool(b) => Ok(*b),
        _ => Err(OscError::Decode),
    }
}

} // verus!
