//! The vocabulary of addresses understood by the remote process, and the
//! frames sent for each command and query.

use vstd::prelude::*;
use vstd::string::{is_ascii_spec_bytes, StringSliceAdditionalSpecFns};

use crate::wire::{
    encode,
    encoding,
    no_nul,
    valid_message,
    ArgView,
    MessageView,
    OscArg,
    WireMessage,
    SLASH,
};

verus! {

/// The fixed endpoints of the conversation and the read timeout.
#[derive(Clone, Copy, Debug, PartialEq, Eq, Structural)]
pub struct TransportConfig {
    /// Port bound locally, on all interfaces.
    pub local_port: u16,
    /// Port of the remote process, on loopback.
    pub remote_port: u16,
    /// How long to wait for one reply, in milliseconds.
    pub timeout_ms: u64,
}

pub const LOCAL_PORT: u16 = 11001;

pub const REMOTE_PORT: u16 = 11000;

pub const DEFAULT_TIMEOUT_MS: u64 = 500;

impl TransportConfig {
    /// The conventional ports with the given read timeout; a timeout of zero
    /// (no bound on the wait) is replaced by the default.
    pub fn with_timeout(timeout_ms: u64) -> (c: TransportConfig)
        ensures
            c.local_port == LOCAL_PORT,
            c.remote_port == REMOTE_PORT,
            c.timeout_ms == if timeout_ms == 0 { DEFAULT_TIMEOUT_MS } else { timeout_ms },
    {
        TransportConfig {
            local_port: LOCAL_PORT,
            remote_port: REMOTE_PORT,
            timeout_ms: if timeout_ms == 0 { DEFAULT_TIMEOUT_MS } else { timeout_ms },
        }
    }

    /// The conventional ports and the default timeout.
    pub fn standard() -> (c: TransportConfig)
        ensures
            c.local_port == LOCAL_PORT,
            c.remote_port == REMOTE_PORT,
            c.timeout_ms == DEFAULT_TIMEOUT_MS,
    {
        TransportConfig::with_timeout(DEFAULT_TIMEOUT_MS)
    }
}

/// A command or query of the remote process, by address.
#[derive(Clone, Copy, Debug, PartialEq, Eq, Structural)]
pub enum Query {
    Test,
    Tempo,
    IsPlaying,
    CurrentSongTime,
    SignatureNumerator,
    SignatureDenominator,
    NumScenes,
    NumTracks,
    StartPlaying,
    StopPlaying,
    SetTempo,
}

pub open spec fn path_of(q: Query) -> &'static str {
    match q {
        Query::Test => "/live/test",
        Query::Tempo => "/live/song/get/tempo",
        Query::IsPlaying => "/live/song/get/is_playing",
        Query::CurrentSongTime => "/live/song/get/current_song_time",
        Query::SignatureNumerator => "/live/song/get/signature_numerator",
        Query::SignatureDenominator => "/live/song/get/signature_denominator",
        Query::NumScenes => "/live/song/get/num_scenes",
        Query::NumTracks => "/live/song/get/num_tracks",
        Query::StartPlaying => "/live/song/start_playing",
        Query::StopPlaying => "/live/song/stop_playing",
        Query::SetTempo => "/live/song/set/tempo",
    }
}

/// The address bytes of `q`.
pub open spec fn address_of(q: Query) -> Seq<u8> {
    path_of(q).spec_bytes()
}

/// The message for `q` with the given arguments.
pub open spec fn message_of(q: Query, args: Seq<ArgView>) -> MessageView {
    MessageView { address: address_of(q), args }
}

/// The path of `q`.
pub fn path(q: Query) -> (r: &'static str)
    ensures
        r == path_of(q),
        r.is_ascii(),
        address_of(q).len() > 0,
        address_of(q)[0] == SLASH,
        no_nul(address_of(q)),
{
    let r = match q {
        Query::Test => "/live/test",
        Query::Tempo => "/live/song/get/tempo",
        Query::IsPlaying => "/live/song/get/is_playing",
        Query::CurrentSongTime => "/live/song/get/current_song_time",
        Query::SignatureNumerator => "/live/song/get/signature_numerator",
        Query::SignatureDenominator => "/live/song/get/signature_denominator",
        Query::NumScenes => "/live/song/get/num_scenes",
        Query::NumTracks => "/live/song/get/num_tracks",
        Query::StartPlaying => "/live/song/start_playing",
        Query::StopPlaying => "/live/song/stop_playing",
        Query::SetTempo => "/live/song/set/tempo",
    };
    proof {
        reveal_strlit("/live/test");
        reveal_strlit("/live/song/get/tempo");
        reveal_strlit("/live/song/get/is_playing");
        reveal_strlit("/live/song/get/current_song_time");
        reveal_strlit("/live/song/get/signature_numerator");
        reveal_strlit("/live/song/get/signature_denominator");
        reveal_strlit("/live/song/get/num_scenes");
        reveal_strlit("/live/song/get/num_tracks");
        reveal_strlit("/live/song/start_playing");
        reveal_strlit("/live/song/stop_playing");
        reveal_strlit("/live/song/set/tempo");
        assert(r.is_ascii());
        is_ascii_spec_bytes(r);
        let b = r.spec_bytes();
        assert forall|i: int| 0 <= i < b.len() implies b[i] != 0 by {
            assert(b[i] == r@[i] as u8);
        }
    }
    r
}


/// The address bytes of `q`.
pub fn address(q: Query) -> (r: Vec<u8>)
    ensures
        r@ == address_of(q),
{
    let b = path(q).as_bytes();
    let mut out: Vec<u8> = Vec::new();
    let mut i: usize = 0;
    while i < b.len()
        invariant
            i <= b@.len(),
            b@ == address_of(q),
            out@ == b@.take(i as int),
        decreases b@.len() - i,
    {
        out.push(b[i]);
        i = i + 1;
        assert(out@ =~= b@.take(i as int));
    }
    assert(b@.take(b@.len() as int) =~= b@);
    out
}

/// The frame of `q` with the one argument list `args`.
fn frame_with(q: Query, args: Vec<OscArg>) -> (r: Vec<u8>)
    requires
        forall|i: int| 0 <= i < args@.len() ==> !(#[trigger] args@[i] is Str),
    ensures
        r@ == encoding(message_of(q, args@.map_values(|a: OscArg| a@))),
{
    path(q);
    let m = WireMessage { address: address(q), args };
    assert(m@ == message_of(q, args@.map_values(|a: OscArg| a@)));
    assert(valid_message(m@)) by {
        assert forall|i: int| 0 <= i < m@.args.len() implies crate::wire::valid_arg(
            #[trigger] m@.args[i],
        ) by {
            assert(!(args@[i] is Str));
        }
    }
    match encode(&m) {
        Ok(b) => b,
        Err(_) => {
            proof {
                assert(false);
            }
            Vec::new()
        },
    }
}

/// The frame of `q` with no arguments.
pub fn query_frame(q: Query) -> (r: Vec<u8>)
    ensures
        r@ == encoding(message_of(q, Seq::empty())),
{
    let r = frame_with(q, Vec::new());
    assert(Seq::<OscArg>::empty().map_values(|a: OscArg| a@) =~= Seq::<ArgView>::empty());
    r
}

/// The command that starts or stops playback.
pub fn set_playing_frame(playing: bool) -> (r: Vec<u8>)
    ensures
        r@ == encoding(
            message_of(if playing { Query::StartPlaying } else { Query::StopPlaying }, Seq::empty()),
        ),
{
    if playing {
        query_frame(Query::StartPlaying)
    } else {
        query_frame(Query::StopPlaying)
    }
}

/// The command that sets the tempo, given as the bit pattern of a single.
pub fn set_tempo_frame(tempo_bits: u32) -> (r: Vec<u8>)
    ensures
        r@ == encoding(message_of(Query::SetTempo, seq![ArgView::Float(tempo_bits)])),
{
    let mut args: Vec<OscArg> = Vec::new();
    args.push(OscArg::Float(tempo_bits));
    let r = frame_with(Query::SetTempo, args);
    assert(args@.map_values(|a: OscArg| a@) =~= seq![ArgView::Float(tempo_bits)]);
    r
}

} // verus!
