use vibewig::client::parse_command;
use vibewig::client::ParseError;
use vibewig::codec::DecodeError;
use vibewig::pattern::Command;
use vibewig::pattern::Note;

fn bytes(s: &str) -> Vec<u8> {
    s.as_bytes().to_vec()
}

fn note(pitch: u8, duration_microbeats: u64, velocity: u8) -> Note {
    Note { pitch, duration_microbeats, velocity }
}

#[test]
fn play_with_duration_and_velocity() {
    let r = parse_command(&bytes("play 60 62 64 dur:0.5 vel:100"));
    assert_eq!(
        r,
        Ok((
            Command::SetPattern(vec![
                note(60, 500_000, 100),
                note(62, 500_000, 100),
                note(64, 500_000, 100),
            ]),
            None
        ))
    );
}

#[test]
fn play_defaults() {
    let r = parse_command(&bytes("play 60"));
    assert_eq!(
        r,
        Ok((Command::SetPattern(vec![note(60, 250_000, 100)]), None))
    );
}

#[test]
fn track_prefixes() {
    let r = parse_command(&bytes("1:play 60 64 67"));
    assert_eq!(
        r,
        Ok((
            Command::SetPattern(vec![
                note(60, 250_000, 100),
                note(64, 250_000, 100),
                note(67, 250_000, 100),
            ]),
            Some(1)
        ))
    );
    assert_eq!(parse_command(&bytes("2:clear")), Ok((Command::Clear, Some(2))));
}

#[test]
fn clear_and_stop() {
    assert_eq!(parse_command(&bytes("clear")), Ok((Command::Clear, None)));
    assert_eq!(parse_command(&bytes("stop")), Ok((Command::Clear, None)));
    assert_eq!(parse_command(&bytes("  stop  ")), Ok((Command::Clear, None)));
}

#[test]
fn notes_is_a_synonym_for_play() {
    let r = parse_command(&bytes("notes 72"));
    assert_eq!(
        r,
        Ok((Command::SetPattern(vec![note(72, 250_000, 100)]), None))
    );
}

#[test]
fn raw_json_passthrough() {
    assert_eq!(
        parse_command(&bytes("{\"type\":\"clear\"}")),
        Ok((Command::Clear, None))
    );
    assert_eq!(
        parse_command(&bytes("1:{\"type\":\"clear\"}")),
        Ok((Command::Clear, Some(1)))
    );
    assert_eq!(
        parse_command(&bytes("{\"type\":\"bogus\"}")),
        Err(ParseError::Decode(DecodeError::UnknownTag))
    );
}

#[test]
fn play_without_notes_fails() {
    assert_eq!(parse_command(&bytes("play")), Err(ParseError::NoNotes));
    // Words that are neither numbers nor options are ignored.
    assert_eq!(parse_command(&bytes("play loud")), Err(ParseError::NoNotes));
}

#[test]
fn unknown_command() {
    assert_eq!(parse_command(&bytes("frobnicate 60")), Err(ParseError::UnknownCommand));
    assert_eq!(parse_command(&bytes("")), Err(ParseError::UnknownCommand));
    assert_eq!(parse_command(&bytes("   ")), Err(ParseError::UnknownCommand));
}

#[test]
fn bad_option_values() {
    assert_eq!(
        parse_command(&bytes("play 60 dur:x")),
        Err(ParseError::InvalidDuration)
    );
    assert_eq!(
        parse_command(&bytes("play 60 vel:300")),
        Err(ParseError::InvalidVelocity)
    );
    assert_eq!(
        parse_command(&bytes("play 60 vel:")),
        Err(ParseError::InvalidVelocity)
    );
}

#[test]
fn last_option_wins_and_out_of_range_pitches_are_skipped() {
    let r = parse_command(&bytes("play 60 300 dur:0.25 dur:2.0 vel:80"));
    assert_eq!(
        r,
        Ok((Command::SetPattern(vec![note(60, 2_000_000, 80)]), None))
    );
}
