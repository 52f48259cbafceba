use vibewig::codec::decode_command;
use vibewig::codec::encode_command;
use vibewig::codec::encode_status;
use vibewig::codec::DecodeError;
use vibewig::bridge::ControlBridge;
use vibewig::engine::TransportSnapshot;
use vibewig::pattern::Command;
use vibewig::pattern::Note;
use vibewig::pattern::PatternStore;

fn bytes(s: &str) -> Vec<u8> {
    s.as_bytes().to_vec()
}

fn note(pitch: u8, duration_microbeats: u64, velocity: u8) -> Note {
    Note { pitch, duration_microbeats, velocity }
}

#[test]
fn decode_clear() {
    assert_eq!(decode_command(&bytes("{\"type\":\"clear\"}")), Ok(Command::Clear));
    assert_eq!(
        decode_command(&bytes("  { \"type\" : \"clear\" }  ")),
        Ok(Command::Clear)
    );
}

#[test]
fn decode_set_pattern_truncates_to_shortest() {
    // notes=[60,62], durations=[0.25], velocities=[100,90]: only the
    // common prefix yields notes, so the pattern has length one.
    let input = bytes(
        "{\"type\":\"set_pattern\",\"notes\":[60,62],\"durations\":[0.25],\"velocities\":[100,90]}",
    );
    assert_eq!(
        decode_command(&input),
        Ok(Command::SetPattern(vec![note(60, 250_000, 100)]))
    );
}

#[test]
fn decode_set_pattern_two_notes() {
    let input = bytes(
        "{\"type\":\"set_pattern\",\"notes\":[60,64],\"durations\":[0.5,1.0],\"velocities\":[100,90]}",
    );
    assert_eq!(
        decode_command(&input),
        Ok(Command::SetPattern(vec![
            note(60, 500_000, 100),
            note(64, 1_000_000, 90),
        ]))
    );
}

#[test]
fn decode_empty_arrays() {
    let input = bytes(
        "{\"type\":\"set_pattern\",\"notes\":[],\"durations\":[],\"velocities\":[]}",
    );
    assert_eq!(decode_command(&input), Ok(Command::SetPattern(vec![])));
}

#[test]
fn decode_unknown_tag_changes_nothing() {
    // An unknown tag is a decode error, and nothing downstream moves: the
    // bridge and the pattern store stay as they were.
    let bridge = ControlBridge::new(64);
    let store = PatternStore::new();
    let r = decode_command(&bytes("{\"type\":\"unknown\"}"));
    assert_eq!(r, Err(DecodeError::UnknownTag));
    assert_eq!(bridge.len(), 0);
    assert_eq!(bridge.dropped_count(), 0);
    assert_eq!(store.notes.len(), 0);
    assert!(!store.note_is_sounding);
}

#[test]
fn decode_malformed_structure() {
    assert_eq!(
        decode_command(&bytes("{")),
        Err(DecodeError::MalformedStructure)
    );
    assert_eq!(
        decode_command(&bytes("not json")),
        Err(DecodeError::MalformedStructure)
    );
    assert_eq!(
        decode_command(&bytes("{\"type\":\"set_pattern\",\"notes\":[60]}")),
        Err(DecodeError::MalformedStructure)
    );
    assert_eq!(
        decode_command(&bytes("{\"type\":\"clear\"} trailing")),
        Err(DecodeError::MalformedStructure)
    );
}

#[test]
fn decode_invalid_numbers() {
    assert_eq!(
        decode_command(&bytes(
            "{\"type\":\"set_pattern\",\"notes\":[256],\"durations\":[0.5],\"velocities\":[100]}"
        )),
        Err(DecodeError::InvalidNumber)
    );
    assert_eq!(
        decode_command(&bytes(
            "{\"type\":\"set_pattern\",\"notes\":[60],\"durations\":[-1],\"velocities\":[100]}"
        )),
        Err(DecodeError::InvalidNumber)
    );
    // Exponent notation is outside the codec's number grammar.
    assert_eq!(
        decode_command(&bytes(
            "{\"type\":\"set_pattern\",\"notes\":[60],\"durations\":[1e3],\"velocities\":[100]}"
        )),
        Err(DecodeError::MalformedStructure)
    );
}

#[test]
fn decode_truncates_fraction_past_micro_resolution() {
    let input = bytes(
        "{\"type\":\"set_pattern\",\"notes\":[60],\"durations\":[0.1234567],\"velocities\":[100]}",
    );
    assert_eq!(
        decode_command(&input),
        Ok(Command::SetPattern(vec![note(60, 123_456, 100)]))
    );
}

#[test]
fn encode_clear_exact() {
    assert_eq!(encode_command(&Command::Clear), bytes("{\"type\":\"clear\"}"));
}

#[test]
fn encode_set_pattern_exact() {
    let cmd = Command::SetPattern(vec![note(60, 500_000, 100), note(64, 1_000_000, 90)]);
    assert_eq!(
        encode_command(&cmd),
        bytes(
            "{\"type\":\"set_pattern\",\"notes\":[60,64],\"durations\":[0.5,1.0],\"velocities\":[100,90]}"
        )
    );
}

#[test]
fn command_round_trip() {
    let cases = vec![
        Command::Clear,
        Command::SetPattern(vec![]),
        Command::SetPattern(vec![note(0, 250_000, 0)]),
        Command::SetPattern(vec![
            note(60, 500_000, 100),
            note(64, 123_456, 90),
            note(127, 2_000_000, 127),
        ]),
    ];
    for cmd in cases {
        let encoded = encode_command(&cmd);
        assert_eq!(decode_command(&encoded), Ok(cmd));
    }
}

#[test]
fn encode_status_exact() {
    let t = TransportSnapshot {
        playing: true,
        tempo_microbpm: 120_000_000,
        time_sig_num: 4,
        time_sig_denom: 4,
        position_microbeats: 8_250_000,
    };
    assert_eq!(
        encode_status(&t),
        bytes(
            "{\"type\":\"transport\",\"playing\":true,\"tempo\":120.0,\"time_sig_num\":4,\"time_sig_denom\":4,\"position_beats\":8.25}"
        )
    );
    let t2 = TransportSnapshot {
        playing: false,
        tempo_microbpm: 98_765_432,
        time_sig_num: 7,
        time_sig_denom: 8,
        position_microbeats: 0,
    };
    assert_eq!(
        encode_status(&t2),
        bytes(
            "{\"type\":\"transport\",\"playing\":false,\"tempo\":98.765432,\"time_sig_num\":7,\"time_sig_denom\":8,\"position_beats\":0.0}"
        )
    );
}

#[test]
fn decode_whitespace_inside_arrays() {
    let input = bytes(
        "{ \"type\" : \"set_pattern\" , \"notes\" : [ 60 , 62 ] , \"durations\" : [ 0.5 , 0.5 ] , \"velocities\" : [ 100 , 90 ] }",
    );
    assert_eq!(
        decode_command(&input),
        Ok(Command::SetPattern(vec![
            note(60, 500_000, 100),
            note(62, 500_000, 90),
        ]))
    );
}

#[test]
fn decode_refuses_string_escapes() {
    assert_eq!(
        decode_command(&bytes("{\"type\":\"cle\\u0061r\"}")),
        Err(DecodeError::MalformedStructure)
    );
}

#[test]
fn decode_refuses_oversized_and_dangling_durations() {
    // A whole part too large for the 64-bit micro-beat fixed point.
    assert_eq!(
        decode_command(&bytes(
            "{\"type\":\"set_pattern\",\"notes\":[60],\"durations\":[99999999999999999],\"velocities\":[100]}"
        )),
        Err(DecodeError::InvalidNumber)
    );
    // A decimal point must be followed by digits.
    assert_eq!(
        decode_command(&bytes(
            "{\"type\":\"set_pattern\",\"notes\":[60],\"durations\":[2.],\"velocities\":[100]}"
        )),
        Err(DecodeError::InvalidNumber)
    );
}
