//! The decisions of each exchange with the remote process. The caller
//! performs the round trips (send a frame, wait for one reply) and hands back
//! what came of each; these machines say what to send next and when the
//! answer is known.

use vstd::prelude::*;

use crate::error::OscError;
use crate::protocol::{message_of, query_frame, Query};
use crate::reply::{
    bool_arg,
    extract_bool_from_response,
    extract_float_from_response,
    extract_int_from_response,
    float_arg,
    int_arg,
};
use crate::wire::{decode, decoding, encoding, MessageView, WireMessage};

verus! {

/// A snapshot of the remote song. Tempo and position are the bit patterns
/// of IEEE-754 singles.
#[derive(Clone, Copy, Debug, PartialEq, Eq, Structural)]
pub struct AbletonInfo {
    pub tempo: u32,
    pub is_playing: bool,
    pub current_time: u32,
    pub scene_count: i32,
    pub track_count: i32,
    pub signature_numerator: i32,
    pub signature_denominator: i32,
}

/// The value used for a time-signature field whose round trip failed.
pub const DEFAULT_SIGNATURE: i32 = 4;

/// What one round trip gave: the reply's bytes, or why there is none.
pub type Outcome = Result<Vec<u8>, OscError>;

/// The message that a round trip brought back.
pub open spec fn reply_of(o: Outcome) -> Result<MessageView, OscError> {
    match o {
        Ok(b) => match decoding(b@) {
            Some(m) => Ok(m),
            None => Err(OscError::Decode),
        },
        Err(e) => Err(e),
    }
}

pub open spec fn float_reply(o: Outcome) -> Result<u32, OscError> {
    match reply_of(o) {
        Ok(m) => float_arg(m),
        Err(e) => Err(e),
    }
}

pub open spec fn int_reply(o: Outcome) -> Result<i32, OscError> {
    match reply_of(o) {
        Ok(m) => int_arg(m),
        Err(e) => Err(e),
    }
}

pub open spec fn bool_reply(o: Outcome) -> Result<bool, OscError> {
    match reply_of(o) {
        Ok(m) => bool_arg(m),
        Err(e) => Err(e),
    }
}

/// The message of a round trip's outcome.
pub fn read_reply(o: &Outcome) -> (r: Result<WireMessage, OscError>)
    ensures
        match r {
            Ok(m) => reply_of(*o) == Ok::<MessageView, OscError>(m@),
            Err(e) => reply_of(*o) == Err::<MessageView, OscError>(e),
        },
{
    match o {
        Ok(b) => decode(b),
        Err(e) => Err(*e),
    }
}

/// The frame of an argument-less query.
pub open spec fn query_bytes(q: Query) -> Seq<u8> {
    encoding(message_of(q, Seq::empty()))
}

/// Number of round trips of an info query.
pub const INFO_STAGES: usize = 7;

/// The query asked at each stage of an info query.
pub open spec fn info_query(stage: int) -> Query {
    if stage == 0 {
        Query::Tempo
    } else if stage == 1 {
        Query::IsPlaying
    } else if stage == 2 {
        Query::CurrentSongTime
    } else if stage == 3 {
        Query::SignatureNumerator
    } else if stage == 4 {
        Query::SignatureDenominator
    } else if stage == 5 {
        Query::NumScenes
    } else {
        Query::NumTracks
    }
}

/// What to do after a round trip of an info query.
#[derive(Debug)]
pub enum InfoStep {
    /// Send this frame and report what came of it.
    Ask(Vec<u8>),
    /// The query is over.
    Done(Result<AbletonInfo, OscError>),
}

pub enum InfoStepView {
    Ask(Seq<u8>),
    Done(Result<AbletonInfo, OscError>),
}

impl View for InfoStep {
    type V = InfoStepView;

    open spec fn view(&self) -> InfoStepView {
        match self {
            InfoStep::Ask(b) => InfoStepView::Ask(b@),
            InfoStep::Done(r) => InfoStepView::Done(*r),
        }
    }
}

/// An info query in progress: the fields read so far, and the stage, which
/// counts the round trips done (`INFO_STAGES` once over).
#[derive(Clone, Copy, Debug, PartialEq, Eq, Structural)]
pub struct InfoSession {
    pub stage: usize,
    pub tempo: u32,
    pub is_playing: bool,
    pub current_time: u32,
    pub signature_numerator: i32,
    pub signature_denominator: i32,
    pub scene_count: i32,
}

/// A session that has asked nothing yet.
pub open spec fn fresh_session() -> InfoSession {
    InfoSession {
        stage: 0,
        tempo: 0,
        is_playing: false,
        current_time: 0,
        signature_numerator: DEFAULT_SIGNATURE,
        signature_denominator: DEFAULT_SIGNATURE,
        scene_count: 0,
    }
}

/// Moves on to the next stage and asks its query.
pub open spec fn advance(s: InfoSession) -> (InfoSession, InfoStepView) {
    let t = InfoSession { stage: (s.stage + 1) as usize, ..s };
    (t, InfoStepView::Ask(query_bytes(info_query(t.stage as int))))
}

/// Ends the query with an error.
pub open spec fn abort(s: InfoSession, e: OscError) -> (InfoSession, InfoStepView) {
    (InfoSession { stage: INFO_STAGES, ..s }, InfoStepView::Done(Err(e)))
}

/// The snapshot made of the fields read so far and the track count.
pub open spec fn snapshot(s: InfoSession, track_count: i32) -> AbletonInfo {
    AbletonInfo {
        tempo: s.tempo,
        is_playing: s.is_playing,
        current_time: s.current_time,
        scene_count: s.scene_count,
        track_count,
        signature_numerator: s.signature_numerator,
        signature_denominator: s.signature_denominator,
    }
}

pub open spec fn or_default(r: Result<i32, OscError>) -> i32 {
    match r {
        Ok(v) => v,
        Err(_) => DEFAULT_SIGNATURE,
    }
}

/// The session and the step after a round trip at stage `s.stage`: the
/// required fields (tempo, playing flag, position, scene and track counts)
/// end the query at their first failure; a time-signature field that fails
/// is `DEFAULT_SIGNATURE`.
pub open spec fn info_next(s: InfoSession, o: Outcome) -> (InfoSession, InfoStepView) {
    if s.stage == 0 {
        match float_reply(o) {
            Ok(v) => advance(InfoSession { tempo: v, ..s }),
            Err(e) => abort(s, e),
        }
    } else if s.stage == 1 {
        match bool_reply(o) {
            Ok(v) => advance(InfoSession { is_playing: v, ..s }),
            Err(e) => abort(s, e),
        }
    } else if s.stage == 2 {
        match float_reply(o) {
            Ok(v) => advance(InfoSession { current_time: v, ..s }),
            Err(e) => abort(s, e),
        }
    } else if s.stage == 3 {
        advance(InfoSession { signature_numerator: or_default(int_reply(o)), ..s })
    } else if s.stage == 4 {
        advance(InfoSession { signature_denominator: or_default(int_reply(o)), ..s })
    } else if s.stage == 5 {
        match int_reply(o) {
            Ok(v) => advance(InfoSession { scene_count: v, ..s }),
            Err(e) => abort(s, e),
        }
    } else {
        match int_reply(o) {
            Ok(v) => (InfoSession { stage: INFO_STAGES, ..s }, InfoStepView::Done(Ok(snapshot(s, v)))),
            Err(e) => abort(s, e),
        }
    }
}

/// What an info query answers when its round trips come out as `outcomes`,
/// from session `s` on; `None` while it still asks.
pub open spec fn info_run(s: InfoSession, outcomes: Seq<Outcome>) -> Option<
    Result<AbletonInfo, OscError>,
>
    decreases outcomes.len(),
{
    if outcomes.len() == 0 || s.stage >= INFO_STAGES {
        None
    } else {
        let (t, step) = info_next(s, outcomes[0]);
        match step {
            InfoStepView::Done(r) => Some(r),
            InfoStepView::Ask(_) => info_run(t, outcomes.skip(1)),
        }
    }
}

/// An info query whose tempo round trip fails ends with that failure at
/// once, whatever the later round trips would have brought.
pub proof fn lemma_info_tempo_failure_aborts(outcomes: Seq<Outcome>)
    requires
        outcomes.len() > 0,
        float_reply(outcomes[0]) is Err,
    ensures
        info_run(fresh_session(), outcomes) == Some(
            Err::<AbletonInfo, OscError>(float_reply(outcomes[0])->Err_0),
        ),
{
    reveal_with_fuel(info_run, 2);
}

/// An info query whose required round trips all succeed answers the
/// snapshot of its seven replies, in the order tempo, playing flag,
/// position, signature numerator and denominator, scene and track counts;
/// a signature field whose round trip failed reads `DEFAULT_SIGNATURE`.
pub proof fn lemma_info_complete(o: Seq<Outcome>)
    requires
        o.len() == INFO_STAGES,
        float_reply(o[0]) is Ok,
        bool_reply(o[1]) is Ok,
        float_reply(o[2]) is Ok,
        int_reply(o[5]) is Ok,
        int_reply(o[6]) is Ok,
    ensures
        info_run(fresh_session(), o) == Some(
            Ok::<AbletonInfo, OscError>(
                AbletonInfo {
                    tempo: float_reply(o[0])->Ok_0,
                    is_playing: bool_reply(o[1])->Ok_0,
                    current_time: float_reply(o[2])->Ok_0,
                    scene_count: int_reply(o[5])->Ok_0,
                    track_count: int_reply(o[6])->Ok_0,
                    signature_numerator: or_default(int_reply(o[3])),
                    signature_denominator: or_default(int_reply(o[4])),
                },
            ),
        ),
{
    reveal_with_fuel(info_run, 8);
    let s0 = fresh_session();
    let s1 = info_next(s0, o[0]).0;
    let s2 = info_next(s1, o.skip(1)[0]).0;
    let s3 = info_next(s2, o.skip(1).skip(1)[0]).0;
    let s4 = info_next(s3, o.skip(1).skip(1).skip(1)[0]).0;
    let s5 = info_next(s4, o.skip(1).skip(1).skip(1).skip(1)[0]).0;
    let s6 = info_next(s5, o.skip(1).skip(1).skip(1).skip(1).skip(1)[0]).0;
    assert(o.skip(1)[0] == o[1]);
    assert(o.skip(1).skip(1)[0] == o[2]);
    assert(o.skip(1).skip(1).skip(1)[0] == o[3]);
    assert(o.skip(1).skip(1).skip(1).skip(1)[0] == o[4]);
    assert(o.skip(1).skip(1).skip(1).skip(1).skip(1)[0] == o[5]);
    assert(o.skip(1).skip(1).skip(1).skip(1).skip(1).skip(1)[0] == o[6]);
    assert(s6.stage == 6);
}

impl InfoSession {
    pub fn new() -> (s: InfoSession)
        ensures
            s == fresh_session(),
    {
        InfoSession {
            stage: 0,
            tempo: 0,
            is_playing: false,
            current_time: 0,
            signature_numerator: DEFAULT_SIGNATURE,
            signature_denominator: DEFAULT_SIGNATURE,
            scene_count: 0,
        }
    }

    /// The frame to send at the current stage.
    pub fn request(&self) -> (r: Vec<u8>)
        requires
            self.stage < INFO_STAGES,
        ensures
            r@ == query_bytes(info_query(self.stage as int)),
    {
        let q = if self.stage == 0 {
            Query::Tempo
        } else if self.stage == 1 {
            Query::IsPlaying
        } else if self.stage == 2 {
            Query::CurrentSongTime
        } else if self.stage == 3 {
            Query::SignatureNumerator
        } else if self.stage == 4 {
            Query::SignatureDenominator
        } else if self.stage == 5 {
            Query::NumScenes
        } else {
            Query::NumTracks
        };
        query_frame(q)
    }

    /// Takes the outcome of the current stage's round trip. Tempo, playing
    /// flag, position, scene and track counts are required: the first failure
    /// among them ends the query with that error. A time-signature field
    /// whose round trip fails is `DEFAULT_SIGNATURE`.
    pub fn on_reply(&mut self, outcome: Outcome) -> (step: InfoStep)
        requires
            old(self).stage < INFO_STAGES,
        ensures
            (*final(self), step@) == info_next(*old(self), outcome),
    {
        let st = self.stage;
        let reply = read_reply(&outcome);
        if st == 3 || st == 4 {
            let v = match reply {
                Ok(m) => match extract_int_from_response(&m) {
                    Ok(v) => v,
                    Err(_) => DEFAULT_SIGNATURE,
                },
                Err(_) => DEFAULT_SIGNATURE,
            };
            if st == 3 {
                self.signature_numerator = v;
            } else {
                self.signature_denominator = v;
            }
            self.stage = st + 1;
            return InfoStep::Ask(self.request());
        }
        let m = match reply {
            Ok(m) => m,
            Err(e) => {
                self.stage = INFO_STAGES;
                return InfoStep::Done(Err(e));
            },
        };
        if st == 0 || st == 2 {
            match extract_float_from_response(&m) {
                Ok(v) => {
                    if st == 0 {
                        self.tempo = v;
                    } else {
                        self.current_time = v;
                    }
                },
                Err(e) => {
                    self.stage = INFO_STAGES;
                    return InfoStep::Done(Err(e));
                },
            }
        } else if st == 1 {
            match extract_bool_from_response(&m) {
                Ok(v) => self.is_playing = v,
                Err(e) => {
                    self.stage = INFO_STAGES;
                    return InfoStep::Done(Err(e));
                },
            }
        } else {
            match extract_int_from_response(&m) {
                Ok(v) => {
                    if st == 5 {
                        self.scene_count = v;
                    } else {
                        self.stage = INFO_STAGES;
                        return InfoStep::Done(
                            Ok(
                                AbletonInfo {
                                    tempo: self.tempo,
                                    is_playing: self.is_playing,
                                    current_time: self.current_time,
                                    scene_count: self.scene_count,
                                    track_count: v,
                                    signature_numerator: self.signature_numerator,
                                    signature_denominator: self.signature_denominator,
                                },
                            ),
                        );
                    }
                },
                Err(e) => {
                    self.stage = INFO_STAGES;
                    return InfoStep::Done(Err(e));
                },
            }
        }
        self.stage = st + 1;
        InfoStep::Ask(self.request())
    }

}


/// Where a connection probe stands.
#[derive(Clone, Copy, Debug, PartialEq, Eq, Structural)]
pub enum ProbeStage {
    /// The local port is being bound.
    Opening,
    /// Waiting on the reply to the test query.
    Test,
    /// Waiting on the reply to the tempo query, asked after the test query
    /// got none.
    Fallback,
    /// The answer is known.
    Finished,
}

/// What to do next in a connection probe.
#[derive(Debug)]
pub enum ProbeStep {
    /// Send this frame and report what came of it.
    Ask(Vec<u8>),
    /// Whether the remote process answered.
    Connected(bool),
}

pub enum ProbeStepView {
    Ask(Seq<u8>),
    Connected(bool),
}

impl View for ProbeStep {
    type V = ProbeStepView;

    open spec fn view(&self) -> ProbeStepView {
        match self {
            ProbeStep::Ask(b) => ProbeStepView::Ask(b@),
            ProbeStep::Connected(c) => ProbeStepView::Connected(*c),
        }
    }
}

/// The stage and step after a round trip of a probe: any well-formed reply
/// means connected; when the test query got none, the tempo query is tried
/// once, unless sending itself failed; otherwise not connected.
pub open spec fn probe_next(stage: ProbeStage, o: Outcome) -> (ProbeStage, ProbeStepView) {
    if reply_of(o) is Ok {
        (ProbeStage::Finished, ProbeStepView::Connected(true))
    } else if stage == ProbeStage::Test && o != Err::<Vec<u8>, OscError>(OscError::Send) {
        (ProbeStage::Fallback, ProbeStepView::Ask(query_bytes(Query::Tempo)))
    } else {
        (ProbeStage::Finished, ProbeStepView::Connected(false))
    }
}

/// What a probe waiting at `stage` answers when its round trips come out as
/// `outcomes`; `None` while it still asks.
pub open spec fn probe_run(stage: ProbeStage, outcomes: Seq<Outcome>) -> Option<bool>
    decreases outcomes.len(),
{
    if outcomes.len() == 0 || !(stage == ProbeStage::Test || stage == ProbeStage::Fallback) {
        None
    } else {
        let (t, step) = probe_next(stage, outcomes[0]);
        match step {
            ProbeStepView::Connected(c) => Some(c),
            ProbeStepView::Ask(_) => probe_run(t, outcomes.skip(1)),
        }
    }
}

/// With no process answering, a probe that sent its test query answers
/// "not connected" (never an error) after at most two round trips.
pub proof fn lemma_probe_unanswered(outcomes: Seq<Outcome>)
    requires
        outcomes.len() >= 2,
        reply_of(outcomes[0]) is Err,
        reply_of(outcomes[1]) is Err,
    ensures
        probe_run(ProbeStage::Test, outcomes) == Some(false),
{
    reveal_with_fuel(probe_run, 3);
    assert(outcomes.skip(1)[0] == outcomes[1]);
}

/// A check that the remote process is listening. It never fails: every
/// failure along the way answers `Connected(false)`, after at most two round
/// trips.
#[derive(Debug)]
pub struct ConnectionProbe {
    pub stage: ProbeStage,
}

impl ConnectionProbe {
    pub fn new() -> (p: ConnectionProbe)
        ensures
            p.stage == ProbeStage::Opening,
    {
        ConnectionProbe { stage: ProbeStage::Opening }
    }

    /// Takes the outcome of binding the local port: on success the test
    /// query is sent, else the process counts as not reachable.
    pub fn on_open(&mut self, opened: Result<(), OscError>) -> (step: ProbeStep)
        requires
            old(self).stage == ProbeStage::Opening,
        ensures
            opened is Ok ==> final(self).stage == ProbeStage::Test && (step matches ProbeStep::Ask(
                b,
            ) && b@ == query_bytes(Query::Test)),
            opened is Err ==> final(self).stage == ProbeStage::Finished && step
                == ProbeStep::Connected(false),
    {
        match opened {
            Ok(()) => {
                self.stage = ProbeStage::Test;
                ProbeStep::Ask(query_frame(Query::Test))
            },
            Err(_) => {
                self.stage = ProbeStage::Finished;
                ProbeStep::Connected(false)
            },
        }
    }

    /// Takes the outcome of the pending round trip (see `probe_next`).
    pub fn on_reply(&mut self, outcome: Outcome) -> (step: ProbeStep)
        requires
            old(self).stage == ProbeStage::Test || old(self).stage == ProbeStage::Fallback,
        ensures
            (final(self).stage, step@) == probe_next(old(self).stage, outcome),
    {
        let answered = read_reply(&outcome).is_ok();
        if answered {
            self.stage = ProbeStage::Finished;
            return ProbeStep::Connected(true);
        }
        let send_failed = match outcome {
            Err(OscError::Send) => true,
            _ => false,
        };
        if self.stage == ProbeStage::Test && !send_failed {
            self.stage = ProbeStage::Fallback;
            ProbeStep::Ask(query_frame(Query::Tempo))
        } else {
            self.stage = ProbeStage::Finished;
            ProbeStep::Connected(false)
        }
    }
}

} // verus!
