use live_osc::error::OscError;
use live_osc::install::{install_success, remote_scripts_subdir, Platform, INSTALL_MESSAGE};
use live_osc::protocol::{
    address, query_frame, set_playing_frame, set_tempo_frame, Query, TransportConfig,
};
use live_osc::session::{
    AbletonInfo, ConnectionProbe, InfoSession, InfoStep, ProbeStage, ProbeStep,
};
use live_osc::wire::{decode, encode, OscArg, WireMessage};

fn reply(args: Vec<OscArg>) -> Result<Vec<u8>, OscError> {
    Ok(encode(&WireMessage { address: b"/live/song/get/x".to_vec(), args }).unwrap())
}

fn asked(step: &InfoStep, q: Query) {
    match step {
        InfoStep::Ask(b) => assert_eq!(b, &query_frame(q)),
        InfoStep::Done(r) => panic!("finished early: {:?}", r),
    }
}

fn run_info(outcomes: Vec<Result<Vec<u8>, OscError>>) -> Result<AbletonInfo, OscError> {
    let mut s = InfoSession::new();
    let mut frame = s.request();
    assert_eq!(frame, query_frame(Query::Tempo));
    for o in outcomes {
        match s.on_reply(o) {
            InfoStep::Ask(b) => frame = b,
            InfoStep::Done(r) => return r,
        }
    }
    panic!("session still asking for {:?}", frame)
}

fn good_replies() -> Vec<Result<Vec<u8>, OscError>> {
    vec![
        reply(vec![OscArg::Float(128.0f32.to_bits())]),
        reply(vec![OscArg::Bool(true)]),
        reply(vec![OscArg::Float(16.5f32.to_bits())]),
        reply(vec![OscArg::Int(3)]),
        reply(vec![OscArg::Int(8)]),
        reply(vec![OscArg::Int(12)]),
        reply(vec![OscArg::Float(6.7f32.to_bits())]),
    ]
}

#[test]
fn set_tempo_sends_one_float() {
    let frame = set_tempo_frame(128.0f32.to_bits());
    let m = decode(&frame).unwrap();
    assert_eq!(m.address, b"/live/song/set/tempo".to_vec());
    assert_eq!(m.args, vec![OscArg::Float(128.0f32.to_bits())]);
    let theirs = rosc::encoder::encode(&rosc::OscPacket::Message(rosc::OscMessage {
        addr: "/live/song/set/tempo".to_string(),
        args: vec![rosc::OscType::Float(128.0)],
    }))
    .unwrap();
    assert_eq!(frame, theirs);
}

#[test]
fn set_playing_frames() {
    let start = decode(&set_playing_frame(true)).unwrap();
    assert_eq!(start.address, b"/live/song/start_playing".to_vec());
    assert!(start.args.is_empty());
    let stop = decode(&set_playing_frame(false)).unwrap();
    assert_eq!(stop.address, b"/live/song/stop_playing".to_vec());
}

#[test]
fn query_addresses() {
    assert_eq!(address(Query::Tempo), b"/live/song/get/tempo".to_vec());
    assert_eq!(address(Query::NumTracks), b"/live/song/get/num_tracks".to_vec());
    assert_eq!(address(Query::Test), b"/live/test".to_vec());
}

#[test]
fn info_full_run() {
    let info = run_info(good_replies()).unwrap();
    assert_eq!(
        info,
        AbletonInfo {
            tempo: 128.0f32.to_bits(),
            is_playing: true,
            current_time: 16.5f32.to_bits(),
            scene_count: 12,
            track_count: 6,
            signature_numerator: 3,
            signature_denominator: 8,
        }
    );
}

#[test]
fn info_asks_in_order() {
    let order = [
        Query::IsPlaying,
        Query::CurrentSongTime,
        Query::SignatureNumerator,
        Query::SignatureDenominator,
        Query::NumScenes,
        Query::NumTracks,
    ];
    let mut s = InfoSession::new();
    for (o, q) in good_replies().into_iter().zip(order) {
        let step = s.on_reply(o);
        asked(&step, q);
    }
}

#[test]
fn info_tempo_timeout_aborts() {
    let mut s = InfoSession::new();
    match s.on_reply(Err(OscError::Timeout)) {
        InfoStep::Done(r) => assert_eq!(r, Err(OscError::Timeout)),
        InfoStep::Ask(_) => panic!("kept asking after the tempo failed"),
    }
}

#[test]
fn info_signature_failure_defaults_to_four() {
    let mut replies = good_replies();
    replies[3] = Err(OscError::Timeout);
    let info = run_info(replies).unwrap();
    assert_eq!(info.signature_numerator, 4);
    assert_eq!(info.signature_denominator, 8);
    let mut replies = good_replies();
    replies[4] = reply(vec![OscArg::Str(b"x".to_vec())]);
    assert_eq!(run_info(replies).unwrap().signature_denominator, 4);
}

#[test]
fn info_scene_decode_failure_aborts() {
    let mut replies = good_replies();
    replies[5] = Ok(vec![1, 2, 3]);
    assert_eq!(run_info(replies), Err(OscError::Decode));
    let mut replies = good_replies();
    replies[1] = reply(vec![OscArg::Float(1.0f32.to_bits())]);
    assert_eq!(run_info(replies), Err(OscError::Decode));
}

#[test]
fn probe_bind_failure_is_not_connected() {
    let mut p = ConnectionProbe::new();
    assert!(matches!(p.on_open(Err(OscError::Bind)), ProbeStep::Connected(false)));
    assert_eq!(p.stage, ProbeStage::Finished);
}

#[test]
fn probe_no_listener_is_not_connected() {
    let mut p = ConnectionProbe::new();
    match p.on_open(Ok(())) {
        ProbeStep::Ask(b) => assert_eq!(b, query_frame(Query::Test)),
        other => panic!("{:?}", other),
    }
    match p.on_reply(Err(OscError::Timeout)) {
        ProbeStep::Ask(b) => assert_eq!(b, query_frame(Query::Tempo)),
        other => panic!("{:?}", other),
    }
    assert!(matches!(p.on_reply(Err(OscError::Timeout)), ProbeStep::Connected(false)));
}

#[test]
fn probe_reply_is_connected() {
    let mut p = ConnectionProbe::new();
    p.on_open(Ok(()));
    assert!(matches!(p.on_reply(reply(vec![])), ProbeStep::Connected(true)));
    let mut p = ConnectionProbe::new();
    p.on_open(Ok(()));
    p.on_reply(Ok(vec![0, 1]));
    assert!(matches!(p.on_reply(reply(vec![OscArg::Float(0)])), ProbeStep::Connected(true)));
}

#[test]
fn probe_send_failure_is_not_connected() {
    let mut p = ConnectionProbe::new();
    p.on_open(Ok(()));
    assert!(matches!(p.on_reply(Err(OscError::Send)), ProbeStep::Connected(false)));
}

#[test]
fn install_report_and_paths() {
    let r = install_success("/home/u/AbletonOSC".to_string());
    assert!(r.success);
    assert_eq!(r.path, Some("/home/u/AbletonOSC".to_string()));
    assert_eq!(r.message, INSTALL_MESSAGE.to_string());
    assert_eq!(remote_scripts_subdir(Platform::MacOs), Some("Music/Ableton/User Library/Remote Scripts"));
    assert_eq!(remote_scripts_subdir(Platform::Windows), Some("Documents/Ableton/User Library/Remote Scripts"));
    assert_eq!(remote_scripts_subdir(Platform::Other), None);
}

#[test]
fn transport_config_defaults() {
    let c = TransportConfig::standard();
    assert_eq!((c.local_port, c.remote_port, c.timeout_ms), (11001, 11000, 500));
    assert_eq!(TransportConfig::with_timeout(0).timeout_ms, 500);
    assert_eq!(TransportConfig::with_timeout(2000).timeout_ms, 2000);
}
