use kazoo_core::notation::{
    parse_body, parse_note, parse_tokens, split_duration, tokenize, NotationFault, NoteValue,
};

#[test]
fn tokenize_keeps_chords_together() {
    assert_eq!(tokenize("c4/4  d4/8\t[e4 g4 b4]/2\n"), vec!["c4/4", "d4/8", "[e4 g4 b4]/2"]);
    assert!(tokenize("   ").is_empty());
    assert_eq!(tokenize("a\u{3000}b"), vec!["a", "b"]);
}

#[test]
fn parses_notes_rests_and_chord_tokens() {
    let toks = parse_tokens("c4/4 d4/8 r/8 [e4 g4 b4]/2").unwrap();
    assert_eq!(toks.len(), 4);
    assert_eq!(toks[0].notes, vec![60]);
    assert_eq!(toks[0].value, NoteValue { denominator: 4, dotted: false });
    assert!(toks[2].is_rest());
    assert_eq!(toks[3].notes, vec![64, 67, 71]);
    assert_eq!(toks[3].value.denominator, 2);
}

#[test]
fn accidentals_and_dotted_values() {
    let toks = parse_tokens("c#4/8. eb4/8 Bb3/4 c\u{266d}4/16..").unwrap();
    assert_eq!(toks[0].notes, vec![61]);
    assert_eq!(toks[0].value, NoteValue { denominator: 8, dotted: true });
    assert_eq!(toks[1].notes, vec![63]);
    assert_eq!(toks[2].notes, vec![58]);
    assert_eq!(toks[3].notes, vec![59]);
    assert_eq!(toks[3].value, NoteValue { denominator: 16, dotted: true });
}

#[test]
fn reports_token_index_and_message_for_bad_note() {
    let err = parse_tokens("c4/4 nope/4").unwrap_err();
    assert_eq!(err.token_index, 1);
    assert!(err.message.contains("unknown note"));
    assert_eq!(err.message, "unknown note letter: n");
}

#[test]
fn duration_errors() {
    assert_eq!(split_duration("c4").unwrap_err(), "missing duration like /4 or /8");
    assert_eq!(split_duration("/4").unwrap_err(), "missing note, chord, or rest before duration");
    assert_eq!(
        split_duration("c4/x").unwrap_err(),
        "duration denominator must be a positive integer"
    );
    assert_eq!(split_duration("c4/0").unwrap_err(), "duration denominator must be non-zero");
    let (body, value) = split_duration("a/b/8").unwrap();
    assert_eq!(body, "a/b");
    assert_eq!(value, NoteValue { denominator: 8, dotted: false });
}

#[test]
fn note_spellings() {
    assert_eq!(parse_note("c4"), Ok(60));
    assert_eq!(parse_note("A4"), Ok(69));
    assert_eq!(parse_note("c-1"), Ok(0));
    assert_eq!(parse_note("g9"), Ok(127));
    let out_of_range = Err("note is outside MIDI range 0..127".to_owned());
    assert_eq!(parse_note("g#9"), out_of_range);
    assert_eq!(parse_note("cb-1"), out_of_range);
    assert_eq!(parse_note("c"), Err("note must include an octave, e.g. c4".to_owned()));
    assert_eq!(parse_note(""), Err("empty note".to_owned()));
    assert_eq!(parse_note("h2"), Err("unknown note letter: h".to_owned()));
}

#[test]
fn bodies() {
    assert_eq!(parse_body("R").unwrap(), Vec::<u8>::new());
    assert_eq!(parse_body("Rest").unwrap(), Vec::<u8>::new());
    assert_eq!(parse_body("[c4  e4]").unwrap(), vec![60, 64]);
    assert_eq!(parse_body("[ ]").unwrap_err(), "chord must contain at least one note");
    assert_eq!(parse_body("[c4 x4]").unwrap_err(), "unknown note letter: x");
    assert_eq!(parse_body("[").unwrap_err(), "unknown note letter: [");
}

#[test]
fn fault_messages() {
    assert_eq!(NotationFault::MissingDuration.message(), "missing duration like /4 or /8");
    assert_eq!(NotationFault::EmptyChord.message(), "chord must contain at least one note");
    assert_eq!(NotationFault::OutOfRange.message(), "note is outside MIDI range 0..127");
}

#[test]
fn note_names_parse_back() {
    for n in 0u8..=127 {
        let name = kazoo_core::midi_note_name(n);
        assert_eq!(parse_note(&name), Ok(n));
    }
}

#[test]
fn far_octaves_are_out_of_range() {
    let range = "note is outside MIDI range 0..127";
    for text in ["c2730/4", "b2729/4", "c2729/4", "c-2732/4", "c32767/4"] {
        let err = kazoo_core::notation::parse_tokens(text).unwrap_err();
        assert_eq!(err.token_index, 0);
        assert_eq!(err.message, range);
    }
    // A bad token before the far one stops reading first.
    let early = kazoo_core::notation::parse_tokens("c4/4 x/4 c3000/4").unwrap_err();
    assert_eq!(early.token_index, 1);
    assert_eq!(parse_note("c-2732"), Err(range.to_owned()));
}

#[test]
fn whitespace_class_matches_std() {
    for c in (0u32..=0x10FFFF).filter_map(char::from_u32) {
        assert_eq!(kazoo_core::notation::is_whitespace(c), c.is_whitespace(), "{c:?}");
    }
}
