//! OSC 1.0 message frames: an address string, a type-tag string and the
//! arguments, each string NUL-terminated and padded to four bytes, each
//! number big-endian.

use vstd::prelude::*;

use crate::error::OscError;

verus! {

pub const TAG_INT: u8 = 0x69;
pub const TAG_FLOAT: u8 = 0x66;
pub const TAG_STR: u8 = 0x73;
pub const TAG_TRUE: u8 = 0x54;
pub const TAG_FALSE: u8 = 0x46;
pub const TAG_LIST: u8 = 0x2c;
pub const SLASH: u8 = 0x2f;

/// One argument of a message. A float is held as its IEEE-754 single
/// precision bit pattern.
#[derive(Clone, Debug, PartialEq, Eq)]
pub enum OscArg {
    Int(i32),
    Float(u32),
    Str(Vec<u8>),
    Bool(bool),
}

/// What an argument is, mathematically.
pub enum ArgView {
    Int(i32),
    Float(u32),
    Str(Seq<u8>),
    Bool(bool),
}

impl View for OscArg {
    type V = ArgView;

    open spec fn view(&self) -> ArgView {
        match self {
            OscArg::Int(v) => ArgView::Int(*v),
            OscArg::Float(v) => ArgView::Float(*v),
            OscArg::Str(s) => ArgView::Str(s@),
            OscArg::Bool(b) => ArgView::Bool(*b),
        }
    }
}

/// A single OSC message: an address path and its arguments.
#[derive(Clone, Debug, PartialEq, Eq)]
pub struct WireMessage {
    pub address: Vec<u8>,
    pub args: Vec<OscArg>,
}

pub struct MessageView {
    pub address: Seq<u8>,
    pub args: Seq<ArgView>,
}

impl View for WireMessage {
    type V = MessageView;

    open spec fn view(&self) -> MessageView {
        MessageView { address: self.address@, args: self.args@.map_values(|a: OscArg| a@) }
    }
}

pub open spec fn no_nul(s: Seq<u8>) -> bool {
    forall|i: int| 0 <= i < s.len() ==> s[i] != 0
}

pub open spec fn valid_arg(a: ArgView) -> bool {
    match a {
        ArgView::Str(s) => no_nul(s),
        _ => true,
    }
}

/// A message that can be framed: its address is a non-empty path that
/// starts with `/`, and no string holds a NUL byte.
pub open spec fn valid_message(m: MessageView) -> bool {
    &&& m.address.len() > 0
    &&& m.address[0] == SLASH
    &&& no_nul(m.address)
    &&& forall|i: int| 0 <= i < m.args.len() ==> valid_arg(#[trigger] m.args[i])
}

/// Length of `s` once NUL-terminated and padded to a multiple of four.
pub open spec fn padded_len(n: int) -> int {
    n + (4 - n % 4)
}

/// `s` followed by one to four NUL bytes, to a multiple of four.
pub open spec fn osc_string(s: Seq<u8>) -> Seq<u8> {
    s + Seq::new((4 - s.len() % 4) as nat, |i: int| 0u8)
}

pub open spec fn be32(v: u32) -> Seq<u8> {
    seq![
        (v / 0x1000000) as u8,
        ((v / 0x10000) % 0x100) as u8,
        ((v / 0x100) % 0x100) as u8,
        (v % 0x100) as u8,
    ]
}

/// The two's-complement word of a 32-bit integer.
pub open spec fn int_word(x: i32) -> u32 {
    (if x >= 0 { x as int } else { x + 0x1_0000_0000 }) as u32
}

/// The 32-bit integer whose two's-complement word is `v`.
pub open spec fn word_int(v: u32) -> i32 {
    (if v < 0x8000_0000 { v as int } else { v - 0x1_0000_0000 }) as i32
}

pub open spec fn tag_of(a: ArgView) -> u8 {
    match a {
        ArgView::Int(_) => TAG_INT,
        ArgView::Float(_) => TAG_FLOAT,
        ArgView::Str(_) => TAG_STR,
        ArgView::Bool(b) => if b { TAG_TRUE } else { TAG_FALSE },
    }
}

/// The type-tag string: a comma, then one tag per argument.
pub open spec fn type_tags(args: Seq<ArgView>) -> Seq<u8> {
    seq![TAG_LIST] + args.map_values(|a: ArgView| tag_of(a))
}

pub open spec fn arg_bytes(a: ArgView) -> Seq<u8> {
    match a {
        ArgView::Int(v) => be32(int_word(v)),
        ArgView::Float(v) => be32(v),
        ArgView::Str(s) => osc_string(s),
        ArgView::Bool(_) => Seq::empty(),
    }
}

pub open spec fn args_bytes(args: Seq<ArgView>) -> Seq<u8>
    decreases args.len(),
{
    if args.len() == 0 {
        Seq::empty()
    } else {
        arg_bytes(args[0]) + args_bytes(args.skip(1))
    }
}

/// The frame of a message.
pub open spec fn encoding(m: MessageView) -> Seq<u8> {
    osc_string(m.address) + osc_string(type_tags(m.args)) + args_bytes(m.args)
}


fn push_be32(out: &mut Vec<u8>, v: u32)
    ensures
        final(out)@ == old(out)@ + be32(v),
{
    out.push((v / 0x1000000) as u8);
    out.push(((v / 0x10000) % 0x100) as u8);
    out.push(((v / 0x100) % 0x100) as u8);
    out.push((v % 0x100) as u8);
    assert(final(out)@ =~= old(out)@ + be32(v));
}

fn to_word(x: i32) -> (r: u32)
    ensures
        r == int_word(x),
{
    if x >= 0 {
        x as u32
    } else {
        ((x + 1) + 0x7fff_ffff) as u32 + 0x8000_0000
    }
}

fn from_word(v: u32) -> (r: i32)
    ensures
        r == word_int(v),
{
    if v < 0x8000_0000 {
        v as i32
    } else {
        (v - 0x8000_0000) as i32 - 0x7fff_ffff - 1
    }
}

fn push_zeros(out: &mut Vec<u8>, n: usize)
    ensures
        final(out)@ == old(out)@ + Seq::new(n as nat, |i: int| 0u8),
{
    let mut k: usize = 0;
    while k < n
        invariant
            k <= n,
            out@ == old(out)@ + Seq::new(k as nat, |i: int| 0u8),
        decreases n - k,
    {
        out.push(0u8);
        k = k + 1;
        assert(out@ =~= old(out)@ + Seq::new(k as nat, |i: int| 0u8));
    }
}

fn push_bytes(out: &mut Vec<u8>, s: &Vec<u8>)
    ensures
        final(out)@ == old(out)@ + s@,
{
    let mut k: usize = 0;
    while k < s.len()
        invariant
            k <= s@.len(),
            out@ == old(out)@ + s@.take(k as int),
        decreases s@.len() - k,
    {
        out.push(s[k]);
        k = k + 1;
        assert(out@ =~= old(out)@ + s@.take(k as int));
    }
    assert(s@.take(s@.len() as int) =~= s@);
}

fn push_osc_string(out: &mut Vec<u8>, s: &Vec<u8>)
    ensures
        final(out)@ == old(out)@ + osc_string(s@),
{
    push_bytes(out, s);
    push_zeros(out, 4 - s.len() % 4);
    assert(final(out)@ =~= old(out)@ + osc_string(s@));
}

fn has_no_nul(s: &Vec<u8>) -> (r: bool)
    ensures
        r == no_nul(s@),
{
    let mut k: usize = 0;
    while k < s.len()
        invariant
            k <= s@.len(),
            forall|i: int| 0 <= i < k ==> s@[i] != 0,
        decreases s@.len() - k,
    {
        if s[k] == 0 {
            return false;
        }
        k = k + 1;
    }
    true
}

/// Whether `m` can be framed (see `valid_message`).
pub fn is_valid_message(m: &WireMessage) -> (r: bool)
    ensures
        r == valid_message(m@),
{
    if m.address.len() == 0 || m.address[0] != SLASH || !has_no_nul(&m.address) {
        return false;
    }
    let mut k: usize = 0;
    while k < m.args.len()
        invariant
            k <= m.args@.len(),
            forall|i: int| 0 <= i < k ==> valid_arg(#[trigger] m@.args[i]),
        decreases m.args@.len() - k,
    {
        assert(m@.args[k as int] == m.args@[k as int]@);
        match &m.args[k] {
            OscArg::Str(s) => {
                if !has_no_nul(s) {
                    return false;
                }
            },
            _ => {},
        }
        k = k + 1;
    }
    true
}

fn arg_tag(a: &OscArg) -> (r: u8)
    ensures
        r == tag_of(a@),
{
    match a {
        OscArg::Int(_) => TAG_INT,
        OscArg::Float(_) => TAG_FLOAT,
        OscArg::Str(_) => TAG_STR,
        OscArg::Bool(b) => if *b { TAG_TRUE } else { TAG_FALSE },
    }
}

proof fn lemma_args_bytes_push(args: Seq<ArgView>, a: ArgView)
    ensures
        args_bytes(args.push(a)) == args_bytes(args) + arg_bytes(a),
    decreases args.len(),
{
    if args.len() == 0 {
        assert(args.push(a).skip(1) =~= Seq::<ArgView>::empty());
        assert(args.push(a)[0] == a);
        assert(args_bytes(args.push(a).skip(1)) == Seq::<u8>::empty());
        assert(args_bytes(args.push(a)) =~= args_bytes(args) + arg_bytes(a));
    } else {
        lemma_args_bytes_push(args.skip(1), a);
        assert(args.push(a).skip(1) =~= args.skip(1).push(a));
        assert(args.push(a)[0] == args[0]);
        assert(args_bytes(args.push(a)) =~= args_bytes(args) + arg_bytes(a));
    }
}

/// Frames `m`; fails with `Encode` exactly when `m` is not a valid message.
pub fn encode(m: &WireMessage) -> (r: Result<Vec<u8>, OscError>)
    ensures
        r is Ok <==> valid_message(m@),
        r matches Ok(b) ==> b@ == encoding(m@),
        r matches Err(e) ==> e == OscError::Encode,
{
    if !is_valid_message(m) {
        return Err(OscError::Encode);
    }
    let mut out: Vec<u8> = Vec::new();
    push_osc_string(&mut out, &m.address);
    let ghost head = out@;
    let mut tags: Vec<u8> = Vec::new();
    tags.push(TAG_LIST);
    let mut k: usize = 0;
    while k < m.args.len()
        invariant
            k <= m.args@.len(),
            tags@ == type_tags(m@.args.take(k as int)),
        decreases m.args@.len() - k,
    {
        let t = arg_tag(&m.args[k]);
        tags.push(t);
        k = k + 1;
        assert(tags@ =~= type_tags(m@.args.take(k as int)));
    }
    assert(m@.args.take(m.args@.len() as int) =~= m@.args);
    push_osc_string(&mut out, &tags);
    let ghost mid = out@;
    let mut k: usize = 0;
    while k < m.args.len()
        invariant
            k <= m.args@.len(),
            out@ == mid + args_bytes(m@.args.take(k as int)),
        decreases m.args@.len() - k,
    {
        proof {
            lemma_args_bytes_push(m@.args.take(k as int), m@.args[k as int]);
            assert(m@.args.take(k as int).push(m@.args[k as int]) =~= m@.args.take(k + 1));
        }
        match &m.args[k] {
            OscArg::Int(v) => push_be32(&mut out, to_word(*v)),
            OscArg::Float(v) => push_be32(&mut out, *v),
            OscArg::Str(s) => push_osc_string(&mut out, s),
            OscArg::Bool(_) => {
                assert(arg_bytes(m@.args[k as int]) =~= Seq::<u8>::empty());
            },
        }
        k = k + 1;
        assert(out@ =~= mid + args_bytes(m@.args.take(k as int)));
    }
    assert(out@ =~= encoding(m@));
    Ok(out)
}


/// `b` holds the padded string `s` at `pos`.
pub open spec fn string_at(b: Seq<u8>, pos: int, s: Seq<u8>) -> bool {
    &&& no_nul(s)
    &&& 0 <= pos
    &&& pos + padded_len(s.len() as int) <= b.len()
    &&& b.subrange(pos, pos + padded_len(s.len() as int)) == osc_string(s)
}

/// `b` holds the big-endian number `v` at `pos`.
pub open spec fn u32_at(b: Seq<u8>, pos: int, v: u32) -> bool {
    0 <= pos && pos + 4 <= b.len() && b.subrange(pos, pos + 4) == be32(v)
}

/// `b` holds the data of `args` at `pos`.
pub open spec fn args_at(b: Seq<u8>, pos: int, args: Seq<ArgView>) -> bool {
    0 <= pos && pos + args_bytes(args).len() <= b.len() && b.subrange(
        pos,
        pos + args_bytes(args).len(),
    ) == args_bytes(args)
}

/// `b` is the frame of the valid message `m`.
pub open spec fn frames(b: Seq<u8>, m: MessageView) -> bool {
    valid_message(m) && encoding(m) == b
}

/// The message that `b` frames, if any.
pub open spec fn decoding(b: Seq<u8>) -> Option<MessageView> {
    if exists|m: MessageView| frames(b, m) {
        Some(choose|m: MessageView| frames(b, m))
    } else {
        None
    }
}

proof fn lemma_osc_string_len(s: Seq<u8>)
    ensures
        osc_string(s).len() == padded_len(s.len() as int),
        padded_len(s.len() as int) % 4 == 0,
        s.len() < padded_len(s.len() as int) <= s.len() + 4,
{
}

/// The first NUL of a padded string ends its text.
proof fn lemma_string_at_nul(b: Seq<u8>, pos: int, s: Seq<u8>)
    requires
        string_at(b, pos, s),
    ensures
        b[pos + s.len()] == 0,
        forall|i: int| 0 <= i < s.len() ==> #[trigger] b[pos + i] == s[i] && s[i] != 0,
{
    lemma_osc_string_len(s);
    assert forall|i: int| 0 <= i < s.len() implies #[trigger] b[pos + i] == s[i] && s[i] != 0 by {
        assert(b.subrange(pos, pos + padded_len(s.len() as int))[i] == b[pos + i]);
    }
    assert(b.subrange(pos, pos + padded_len(s.len() as int))[s.len() as int] == b[pos + s.len()]);
}

proof fn lemma_string_unique(b: Seq<u8>, pos: int, s1: Seq<u8>, s2: Seq<u8>)
    requires
        string_at(b, pos, s1),
        string_at(b, pos, s2),
    ensures
        s1 == s2,
{
    lemma_string_at_nul(b, pos, s1);
    lemma_string_at_nul(b, pos, s2);
    if s1.len() < s2.len() {
        assert(b[pos + s1.len()] == s2[s1.len() as int]);
    } else if s2.len() < s1.len() {
        assert(b[pos + s2.len()] == s1[s2.len() as int]);
    } else {
        assert forall|i: int| 0 <= i < s1.len() implies s1[i] == s2[i] by {
            assert(b[pos + i] == s1[i]);
        }
        assert(s1 =~= s2);
    }
}

proof fn lemma_be32_unique(v1: u32, v2: u32)
    requires
        be32(v1) == be32(v2),
    ensures
        v1 == v2,
{
    assert(be32(v1)[0] == be32(v2)[0]);
    assert(be32(v1)[1] == be32(v2)[1]);
    assert(be32(v1)[2] == be32(v2)[2]);
    assert(be32(v1)[3] == be32(v2)[3]);
    assert(v1 == v2) by (bit_vector)
        requires
            v1 / 0x1000000 == v2 / 0x1000000,
            (v1 / 0x10000) % 0x100 == (v2 / 0x10000) % 0x100,
            (v1 / 0x100) % 0x100 == (v2 / 0x100) % 0x100,
            v1 % 0x100 == v2 % 0x100,
    ;
}

proof fn lemma_int_bits(x: i32)
    ensures
        word_int(int_word(x)) == x,
{
}

proof fn lemma_word_int(v: u32)
    ensures
        int_word(word_int(v)) == v,
{
}

/// Data of a sequence of arguments splits into its first argument and the rest.
proof fn lemma_args_at_split(b: Seq<u8>, pos: int, args: Seq<ArgView>)
    requires
        args_at(b, pos, args),
        args.len() > 0,
    ensures
        b.subrange(pos, pos + arg_bytes(args[0]).len()) == arg_bytes(args[0]),
        args_at(b, pos + arg_bytes(args[0]).len(), args.skip(1)),
{
    let n = arg_bytes(args[0]).len() as int;
    let whole = args_bytes(args);
    assert(whole == arg_bytes(args[0]) + args_bytes(args.skip(1)));
    assert(b.subrange(pos, pos + n) =~= whole.subrange(0, n));
    assert(b.subrange(pos + n, pos + whole.len()) =~= whole.subrange(n, whole.len() as int));
    assert(whole.subrange(n, whole.len() as int) =~= args_bytes(args.skip(1)));
}

proof fn lemma_args_unique(b: Seq<u8>, pos: int, a1: Seq<ArgView>, a2: Seq<ArgView>)
    requires
        a1.len() == a2.len(),
        forall|i: int| 0 <= i < a1.len() ==> tag_of(#[trigger] a1[i]) == tag_of(a2[i]),
        forall|i: int| 0 <= i < a1.len() ==> valid_arg(#[trigger] a1[i]),
        forall|i: int| 0 <= i < a2.len() ==> valid_arg(#[trigger] a2[i]),
        args_at(b, pos, a1),
        args_at(b, pos, a2),
    ensures
        a1 == a2,
    decreases a1.len(),
{
    if a1.len() == 0 {
        assert(a1 =~= a2);
    } else {
        lemma_args_at_split(b, pos, a1);
        lemma_args_at_split(b, pos, a2);
        assert(tag_of(a1[0]) == tag_of(a2[0]));
        assert(valid_arg(a1[0]) && valid_arg(a2[0]));
        match a1[0] {
            ArgView::Int(x1) => {
                if let ArgView::Int(x2) = a2[0] {
                    lemma_be32_unique(int_word(x1), int_word(x2));
                    lemma_int_bits(x1);
                    lemma_int_bits(x2);
                }
            },
            ArgView::Float(x1) => {
                if let ArgView::Float(x2) = a2[0] {
                    lemma_be32_unique(x1, x2);
                }
            },
            ArgView::Str(s1) => {
                if let ArgView::Str(s2) = a2[0] {
                    lemma_osc_string_len(s1);
                    lemma_osc_string_len(s2);
                    assert(string_at(b, pos, s1));
                    assert(string_at(b, pos, s2));
                    lemma_string_unique(b, pos, s1, s2);
                }
            },
            ArgView::Bool(_) => {},
        }
        assert(a1[0] == a2[0]);
        let next = pos + arg_bytes(a1[0]).len();
        assert forall|i: int| 0 <= i < a1.skip(1).len() implies tag_of(#[trigger] a1.skip(1)[i])
            == tag_of(a2.skip(1)[i]) by {
            assert(tag_of(a1[i + 1]) == tag_of(a2[i + 1]));
        }
        assert forall|i: int| 0 <= i < a1.skip(1).len() implies valid_arg(#[trigger] a1.skip(1)[i]) by {
            assert(valid_arg(a1[i + 1]));
        }
        assert forall|i: int| 0 <= i < a2.skip(1).len() implies valid_arg(#[trigger] a2.skip(1)[i]) by {
            assert(valid_arg(a2[i + 1]));
        }
        lemma_args_unique(b, next, a1.skip(1), a2.skip(1));
        assert(a1 =~= a2) by {
            assert forall|i: int| 0 <= i < a1.len() implies a1[i] == a2[i] by {
                if i > 0 {
                    assert(a1.skip(1)[i - 1] == a2.skip(1)[i - 1]);
                }
            }
        }
    }
}

/// Where the three parts of a frame stand in any buffer that starts with it.
proof fn lemma_frame_parts(b: Seq<u8>, m: MessageView)
    requires
        valid_message(m),
        encoding(m).len() <= b.len(),
        b.take(encoding(m).len() as int) == encoding(m),
    ensures
        string_at(b, 0, m.address),
        string_at(b, padded_len(m.address.len() as int), type_tags(m.args)),
        args_at(
            b,
            padded_len(m.address.len() as int) + padded_len(type_tags(m.args).len() as int),
            m.args,
        ),
        encoding(m).len() == padded_len(m.address.len() as int) + padded_len(
            type_tags(m.args).len() as int,
        ) + args_bytes(m.args).len(),
{
    let e = encoding(m);
    let p1 = padded_len(m.address.len() as int);
    let p2 = p1 + padded_len(type_tags(m.args).len() as int);
    lemma_osc_string_len(m.address);
    lemma_osc_string_len(type_tags(m.args));
    assert(b.subrange(0, p1) =~= e.subrange(0, p1));
    assert(e.subrange(0, p1) =~= osc_string(m.address));
    assert(b.subrange(p1, p2) =~= e.subrange(p1, p2));
    assert(e.subrange(p1, p2) =~= osc_string(type_tags(m.args)));
    assert(b.subrange(p2, e.len() as int) =~= e.subrange(p2, e.len() as int));
    assert(e.subrange(p2, e.len() as int) =~= args_bytes(m.args));
    assert forall|i: int| 1 <= i < type_tags(m.args).len() implies #[trigger] type_tags(m.args)[i]
        != 0 by {
        assert(type_tags(m.args)[i] == tag_of(m.args[i - 1]));
    }
}

/// No frame of a valid message is a proper prefix of another, and no two
/// valid messages share a frame.
proof fn lemma_frame_prefix_unique(m1: MessageView, m2: MessageView)
    requires
        valid_message(m1),
        valid_message(m2),
        encoding(m2).len() <= encoding(m1).len(),
        encoding(m1).take(encoding(m2).len() as int) == encoding(m2),
    ensures
        m1 == m2,
{
    let b = encoding(m1);
    assert(b.take(b.len() as int) =~= b);
    lemma_frame_parts(b, m1);
    lemma_frame_parts(b, m2);
    let p1 = padded_len(m1.address.len() as int);
    lemma_string_unique(b, 0, m1.address, m2.address);
    let t1 = type_tags(m1.args);
    let t2 = type_tags(m2.args);
    lemma_string_unique(b, p1, t1, t2);
    assert(t1.len() == m1.args.len() + 1);
    assert forall|i: int| 0 <= i < m1.args.len() implies tag_of(#[trigger] m1.args[i]) == tag_of(
        m2.args[i],
    ) by {
        assert(t1[i + 1] == t2[i + 1]);
    }
    let p2 = p1 + padded_len(t1.len() as int);
    lemma_args_unique(b, p2, m1.args, m2.args);
}

/// Decoding the frame of a valid message gives back that message.
pub proof fn lemma_decode_encode(m: MessageView)
    requires
        valid_message(m),
    ensures
        decoding(encoding(m)) == Some(m),
{
    let e = encoding(m);
    assert(frames(e, m));
    let w = choose|w: MessageView| frames(e, w);
    assert(e.take(e.len() as int) =~= e);
    lemma_frame_prefix_unique(w, m);
}

/// A frame of a valid message cut short by any number of bytes frames no
/// message.
pub proof fn lemma_decode_truncated(m: MessageView, k: int)
    requires
        valid_message(m),
        0 <= k < encoding(m).len(),
    ensures
        decoding(encoding(m).take(k)) is None,
{
    let b = encoding(m).take(k);
    if exists|w: MessageView| frames(b, w) {
        let w = choose|w: MessageView| frames(b, w);
        assert(encoding(m).take(encoding(w).len() as int) =~= encoding(w));
        lemma_frame_prefix_unique(m, w);
    }
}

/// Every frame is at least eight bytes long.
pub proof fn lemma_decode_short(b: Seq<u8>)
    requires
        b.len() < 8,
    ensures
        decoding(b) is None,
{
    if exists|w: MessageView| frames(b, w) {
        let w = choose|w: MessageView| frames(b, w);
        lemma_osc_string_len(w.address);
        lemma_osc_string_len(type_tags(w.args));
    }
}


/// Reads the padded string at `pos`; `None` exactly when `b` holds none there.
fn read_string(b: &Vec<u8>, pos: usize) -> (r: Option<(Vec<u8>, usize)>)
    requires
        pos <= b@.len(),
    ensures
        r matches Some((s, end)) ==> string_at(b@, pos as int, s@) && end == pos + padded_len(
            s@.len() as int,
        ),
        forall|s: Seq<u8>| string_at(b@, pos as int, s) ==> (r matches Some((t, _)) && t@ == s),
{
    let mut k: usize = pos;
    while k < b.len() && b[k] != 0
        invariant
            pos <= k <= b@.len(),
            forall|i: int| pos <= i < k ==> b@[i] != 0,
        decreases b@.len() - k,
    {
        k = k + 1;
    }
    if k == b.len() {
        proof {
            assert forall|s: Seq<u8>| !string_at(b@, pos as int, s) by {
                if string_at(b@, pos as int, s) {
                    lemma_string_at_nul(b@, pos as int, s);
                    lemma_osc_string_len(s);
                    assert(b@[pos + s.len()] != 0);
                }
            }
        }
        return None;
    }
    let pad: usize = 4 - (k - pos) % 4;
    let ghost text = b@.subrange(pos as int, k as int);
    proof {
        assert forall|s: Seq<u8>| string_at(b@, pos as int, s) implies s == text by {
            lemma_string_at_nul(b@, pos as int, s);
            if s.len() < k - pos {
                assert(b@[pos + s.len()] != 0);
            } else if s.len() > k - pos {
                assert(b@[pos + (k - pos)] == s[k - pos]);
            }
            assert forall|i: int| 0 <= i < s.len() implies s[i] == text[i] by {
                assert(b@[pos + i] == s[i]);
            }
            assert(s =~= text);
        }
    }
    if pad > b.len() - k {
        proof {
            assert forall|s: Seq<u8>| !string_at(b@, pos as int, s) by {
                if string_at(b@, pos as int, s) {
                    assert(s == text);
                }
            }
        }
        return None;
    }
    let end: usize = k + pad;
    let mut j: usize = k;
    while j < end
        invariant
            pos <= k <= j <= end <= b@.len(),
            end == k + pad,
            pad == 4 - (k - pos) % 4,
            text == b@.subrange(pos as int, k as int),
            forall|i: int| k <= i < j ==> b@[i] == 0,
            forall|s: Seq<u8>| string_at(b@, pos as int, s) ==> s == text,
        decreases end - j,
    {
        if b[j] != 0 {
            proof {
                assert forall|s: Seq<u8>| !string_at(b@, pos as int, s) by {
                    if string_at(b@, pos as int, s) {
                        assert(s == text);
                        lemma_osc_string_len(s);
                        assert(b@.subrange(pos as int, end as int)[j - pos] == b@[j as int]);
                        assert(osc_string(s)[j - pos] == 0);
                    }
                }
            }
            return None;
        }
        j = j + 1;
    }
    let mut out: Vec<u8> = Vec::new();
    let mut i: usize = pos;
    while i < k
        invariant
            pos <= i <= k < b@.len(),
            out@ == b@.subrange(pos as int, i as int),
        decreases k - i,
    {
        out.push(b[i]);
        i = i + 1;
        assert(out@ =~= b@.subrange(pos as int, i as int));
    }
    proof {
        assert(out@ == text);
        assert(b@.subrange(pos as int, end as int) =~= osc_string(text));
    }
    Some((out, end))
}

/// Reads the big-endian number at `pos`; `None` exactly when fewer than four
/// bytes are left.
fn read_u32(b: &Vec<u8>, pos: usize) -> (r: Option<u32>)
    requires
        pos <= b@.len(),
    ensures
        r matches Some(v) ==> u32_at(b@, pos as int, v),
        forall|v: u32| u32_at(b@, pos as int, v) ==> r == Some(v),
{
    if b.len() - pos < 4 {
        return None;
    }
    let x0 = b[pos] as u32;
    let x1 = b[pos + 1] as u32;
    let x2 = b[pos + 2] as u32;
    let x3 = b[pos + 3] as u32;
    let v: u32 = x0 * 0x1000000 + x1 * 0x10000 + x2 * 0x100 + x3;
    assert(v / 0x1000000 == x0 && (v / 0x10000) % 0x100 == x1 && (v / 0x100) % 0x100 == x2 && v
        % 0x100 == x3) by (bit_vector)
        requires
            x0 < 0x100 && x1 < 0x100 && x2 < 0x100 && x3 < 0x100,
            v == x0 * 0x1000000 + x1 * 0x10000 + x2 * 0x100 + x3,
    ;
    assert(b@.subrange(pos as int, pos + 4) =~= be32(v));
    proof {
        assert forall|w: u32| u32_at(b@, pos as int, w) implies Some(v) == Some(w) by {
            lemma_be32_unique(v, w);
        }
    }
    Some(v)
}


/// Parses one message frame. Fails with `Decode` exactly when `b` is not the
/// frame of a valid message (empty, cut short, a bundle, an unknown type tag,
/// bytes left over); otherwise returns the message that `b` frames.
pub fn decode(b: &Vec<u8>) -> (r: Result<WireMessage, OscError>)
    ensures
        r matches Ok(m) ==> decoding(b@) == Some(m@),
        r matches Err(e) ==> e == OscError::Decode && decoding(b@) is None,
{
    let blen = b.len();
    let ghost w = decoding(b@);
    proof {
        if w is Some {
            let wm = w->0;
            assert(b@.take(b@.len() as int) =~= b@);
            lemma_frame_parts(b@, wm);
        }
    }
    let (address, p1) = match read_string(b, 0) {
        Some(x) => x,
        None => return Err(OscError::Decode),
    };
    if address.len() == 0 || address[0] != SLASH {
        return Err(OscError::Decode);
    }
    let (tags, p2) = match read_string(b, p1) {
        Some(x) => x,
        None => return Err(OscError::Decode),
    };
    if tags.len() == 0 || tags[0] != TAG_LIST {
        return Err(OscError::Decode);
    }
    proof {
        if w is Some {
            let wm = w->0;
            assert(tags@.len() == wm.args.len() + 1);
            assert forall|i: int| 0 <= i < wm.args.len() implies tags@[i + 1] == tag_of(
                #[trigger] wm.args[i],
            ) by {
                assert(type_tags(wm.args)[i + 1] == tag_of(wm.args[i]));
            }
        }
    }
    proof {
        if w is Some {
            let wm = w->0;
            assert(wm.args.skip(0) =~= wm.args);
            assert(Seq::<OscArg>::empty().map_values(|a: OscArg| a@) =~= wm.args.take(0));
            assert(args_bytes(Seq::<ArgView>::empty()) == Seq::<u8>::empty());
        }
    }
    let n: usize = tags.len() - 1;
    let mut args: Vec<OscArg> = Vec::new();
    let mut pos: usize = p2;
    let mut i: usize = 0;
    while i < n
        invariant
            n == tags@.len() - 1,
            0 < tags@.len(),
            i <= n,
            p2 <= pos <= b@.len(),
            blen == b@.len(),
            w == decoding(b@),
            args@.len() == i,
            b@.subrange(p2 as int, pos as int) == args_bytes(args@.map_values(|a: OscArg| a@)),
            forall|j: int| 0 <= j < i ==> tag_of(#[trigger] args@[j]@) == tags@[j + 1],
            forall|j: int| 0 <= j < i ==> valid_arg(#[trigger] args@[j]@),
            w matches Some(wm) ==> {
                &&& tags@.len() == wm.args.len() + 1
                &&& forall|j: int| 0 <= j < wm.args.len() ==> tags@[j + 1] == tag_of(#[trigger] wm.args[j])
                &&& args@.map_values(|a: OscArg| a@) == wm.args.take(i as int)
                &&& args_at(b@, pos as int, wm.args.skip(i as int))
                &&& pos + args_bytes(wm.args.skip(i as int)).len() == b@.len()
                &&& forall|j: int| 0 <= j < wm.args.len() ==> valid_arg(#[trigger] wm.args[j])
            },
        decreases n - i,
    {
        let ghost before = args@.map_values(|a: OscArg| a@);
        proof {
            if w is Some {
                let wm = w->0;
                lemma_args_at_split(b@, pos as int, wm.args.skip(i as int));
                assert(wm.args.skip(i as int)[0] == wm.args[i as int]);
                assert(wm.args.skip(i as int).skip(1) =~= wm.args.skip(i + 1));
                assert(tags@[i + 1] == tag_of(wm.args[i as int]));
                match wm.args[i as int] {
                    ArgView::Int(x) => assert(u32_at(b@, pos as int, int_word(x))),
                    ArgView::Float(x) => assert(u32_at(b@, pos as int, x)),
                    ArgView::Str(t) => {
                        lemma_osc_string_len(t);
                        assert(valid_arg(wm.args[i as int]));
                        assert(string_at(b@, pos as int, t));
                    },
                    ArgView::Bool(_) => {},
                }
            }
        }
        let tag = tags[i + 1];
        let arg: OscArg;
        if tag == TAG_INT || tag == TAG_FLOAT {
            let v = match read_u32(b, pos) {
                Some(v) => v,
                None => {
                    proof {
                        if w is Some {
                            let wm = w->0;
                            assert(tags@[i + 1] == tag_of(wm.args[i as int]));
                        }
                    }
                    return Err(OscError::Decode);
                },
            };
            assert(u32_at(b@, pos as int, v));
            if tag == TAG_INT {
                proof {
                    if w is Some {
                        let wm = w->0;
                        if let ArgView::Int(x) = wm.args[i as int] {
                            assert(u32_at(b@, pos as int, int_word(x)));
                            lemma_int_bits(x);
                        }
                    }
                }
                proof { lemma_word_int(v); }
                arg = OscArg::Int(from_word(v));
            } else {
                proof {
                    if w is Some {
                        let wm = w->0;
                        if let ArgView::Float(x) = wm.args[i as int] {
                            assert(u32_at(b@, pos as int, x));
                        }
                    }
                }
                arg = OscArg::Float(v);
            }
            pos = pos + 4;
        } else if tag == TAG_STR {
            let (text, end) = match read_string(b, pos) {
                Some(x) => x,
                None => return Err(OscError::Decode),
            };
            proof {
                if w is Some {
                    let wm = w->0;
                    if let ArgView::Str(t) = wm.args[i as int] {
                        lemma_osc_string_len(t);
                        assert(string_at(b@, pos as int, t));
                    }
                }
                lemma_osc_string_len(text@);
            }
            arg = OscArg::Str(text);
            pos = end;
        } else if tag == TAG_TRUE {
            arg = OscArg::Bool(true);
        } else if tag == TAG_FALSE {
            arg = OscArg::Bool(false);
        } else {
            proof {
                if w is Some {
                    let wm = w->0;
                    assert(tags@[i + 1] == tag_of(wm.args[i as int]));
                }
            }
            return Err(OscError::Decode);
        }
        args.push(arg);
        proof {
            lemma_args_bytes_push(before, arg@);
            assert(args@.map_values(|a: OscArg| a@) =~= before.push(arg@));
            let old_pos = pos - arg_bytes(arg@).len();
            assert(b@.subrange(p2 as int, pos as int) =~= b@.subrange(p2 as int, old_pos)
                + b@.subrange(old_pos, pos as int));
            if w is Some {
                let wm = w->0;
                assert(arg@ == wm.args[i as int]);
                assert(wm.args.take(i as int).push(wm.args[i as int]) =~= wm.args.take(i + 1));
            }
        }
        i = i + 1;
    }
    if pos != b.len() {
        return Err(OscError::Decode);
    }
    let m = WireMessage { address, args };
    proof {
        let av = args@.map_values(|a: OscArg| a@);
        assert(m@.args == av);
        assert(tags@ =~= type_tags(av));
        assert forall|j: int| 0 <= j < av.len() implies valid_arg(#[trigger] av[j]) by {
            assert(valid_arg(args@[j]@));
        }
        lemma_osc_string_len(address@);
        lemma_osc_string_len(tags@);
        assert(b@ =~= b@.subrange(0, p1 as int) + b@.subrange(p1 as int, p2 as int) + b@.subrange(
            p2 as int,
            pos as int,
        ));
        assert(frames(b@, m@));
        let wm = w->0;
        assert(wm.args.take(n as int) =~= wm.args);
        lemma_string_unique(b@, 0, address@, wm.address);
        assert(wm == m@);
    }
    Ok(m)
}

} // verus!
