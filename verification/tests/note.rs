use scram::synth::{Note, SynthSource};
use scram::buffer::Source;

#[test]
fn natural_notes_parse_to_midi_numbers() {
    assert_eq!(Note::parse("A4"), Some(Note(69)));
    assert_eq!(Note::parse("C4"), Some(Note(60)));
    assert_eq!(Note::parse("C0"), Some(Note(12)));
    assert_eq!(Note::parse("B3"), Some(Note(59)));
}

#[test]
fn accidentals_parse_and_enharmonics_agree() {
    assert_eq!(Note::parse("C#4"), Some(Note(61)));
    assert_eq!(Note::parse("Db4"), Some(Note(61)));
    assert_eq!(Note::parse("D#2"), Note::parse("Eb2"));
    assert_eq!(Note::parse("A#1"), Note::parse("Bb1"));
}

#[test]
fn flat_c_sits_at_the_tritone_as_the_table_has_it() {
    assert_eq!(Note::parse("Cb4"), Some(Note(66)));
    assert_eq!(Note::parse("Cb4"), Note::parse("F#4"));
}

#[test]
fn unknown_heads_are_rejected() {
    assert_eq!(Note::parse("H4"), None);
    assert_eq!(Note::parse("c4"), None);
    assert_eq!(Note::parse("Xb2"), None);
}

#[test]
fn missing_octave_reads_as_zero() {
    assert_eq!(Note::parse("C"), Some(Note(12)));
    assert_eq!(Note::parse("A"), Some(Note(21)));
    // Two characters split as a one-character head, so the sharp is a
    // failed octave suffix, not an accidental.
    assert_eq!(Note::parse("C#"), Some(Note(12)));
}

#[test]
fn three_character_names_always_split_as_accidentals() {
    // A three-character name takes a two-character head, so a minus
    // sign lands in the head and no such accidental exists.
    assert_eq!(Note::parse("C-1"), None);
    assert_eq!(Note::parse("C12"), None);
    // With four characters the head is one character again and the
    // whole suffix must be a number.
    assert_eq!(Note::parse("C123"), None);
}

#[test]
fn unparsable_octave_suffix_reads_as_zero() {
    assert_eq!(Note::parse("C4x5"), Some(Note(12)));
}

#[test]
fn synth_source_reports_its_parameters() {
    let source = SynthSource::new(48000, 2048);
    assert_eq!(source.sample_rate(), 48000);
    assert_eq!(source.sample_size(), 2048);
}
