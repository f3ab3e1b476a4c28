use mmb_core::composer::{
    compose, emit, offset_conflict, Event, NoteValue, Sequencer, VONote, VOPattern,
};
use mmb_core::pitch::calculate_pitches;
use mmb_core::{CompositionError, CompositionSettings};

fn pattern(offset: usize, notes: &[(usize, usize, usize)]) -> VOPattern {
    let mut pattern = VOPattern::new(0, offset);
    for (note, offset, duration) in notes {
        pattern.add_note(VONote { note: *note, offset: *offset, duration: *duration });
    }
    pattern
}

fn short_settings() -> CompositionSettings {
    CompositionSettings {
        pattern_bars: 1,
        pattern_num: 2,
        min_octave: 4,
        max_octave: 5,
        scale: vec!["C".to_string(), "D".to_string(), "E".to_string()],
        ..CompositionSettings::default()
    }
}

fn note_on(delta_time: u32, note: u8) -> Event {
    Event::NoteOn { delta_time, channel: 0, note, velocity: 100 }
}

#[test]
fn note_values_divide_the_whole_note() {
    assert_eq!(NoteValue::Whole.ticks(), 1920);
    assert_eq!(NoteValue::Half.ticks(), 960);
    assert_eq!(NoteValue::Quarter.ticks(), 480);
    assert_eq!(NoteValue::Eighth.ticks(), 240);
    assert_eq!(NoteValue::Sixteenth.ticks(), 120);
    assert_eq!(NoteValue::ThirtySecond.ticks(), 60);
    assert_eq!(NoteValue::SixtyFourth.ticks(), 30);
}

#[test]
fn a_note_at_the_start_conflicts_with_offset_0_only() {
    let p = pattern(960, &[(60, 960, 480)]);
    assert!(p.conflicts(0));
    assert!(!p.conflicts(1));
    assert!(!p.conflicts(480));
    assert!(!p.conflicts(960));
    assert!(!p.conflicts(1920));
}

#[test]
fn a_later_note_conflicts_with_the_multiples_of_its_offset() {
    let p = pattern(100, &[(60, 100, 480), (62, 580, 480)]);
    // Relative offsets 0 and 480.
    assert!(p.conflicts(0));
    assert!(p.conflicts(480));
    assert!(p.conflicts(960));
    assert!(p.conflicts(1440));
    assert!(!p.conflicts(240));
    assert!(!p.conflicts(481));
    assert!(!p.conflicts(1000));
}

#[test]
fn an_empty_pattern_never_conflicts() {
    let p = VOPattern::new(3, 1920);
    for offset in [0, 1, 480, 1920, 3840] {
        assert!(!p.conflicts(offset));
    }
    assert!(!offset_conflict(0, &[VOPattern::new(0, 0), VOPattern::new(1, 0)]));
}

#[test]
fn one_conflicting_pattern_is_enough() {
    let patterns = vec![
        pattern(0, &[(60, 0, 1440), (62, 1440, 1440)]),
        pattern(2880, &[(64, 2880, 1920), (65, 4800, 1920)]),
    ];
    assert!(offset_conflict(0, &patterns));
    assert!(offset_conflict(1440, &patterns));
    assert!(offset_conflict(1920, &patterns));
    assert!(offset_conflict(3840, &patterns));
    assert!(!offset_conflict(480, &patterns));
    assert!(!offset_conflict(960, &patterns));
    assert!(!offset_conflict(0, &[]));
}

#[test]
fn a_pattern_knows_its_range() {
    let p = pattern(960, &[(60, 960, 480), (62, 1440, 1920), (64, 3360, 1440)]);
    assert_eq!(p.get_offsets(), vec![960, 1440, 3360]);
    assert_eq!(p.get_range_start_offset(), 960);
    assert_eq!(p.get_range_end_offset(), 4800);
    assert_eq!(p.get_range_length(), 3840);
    let empty = VOPattern::new(0, 960);
    assert_eq!(empty.get_offsets(), Vec::<usize>::new());
    assert_eq!(empty.get_range_start_offset(), 0);
    assert_eq!(empty.get_range_end_offset(), 0);
    assert_eq!(empty.get_range_length(), 0);
}

#[test]
fn add_note_appends() {
    let mut p = VOPattern::new(7, 480);
    assert_eq!(p.pattern_num, 7);
    assert_eq!(p.offset, 480);
    assert!(p.notes.is_empty());
    p.add_note(VONote { note: 60, offset: 480, duration: 480 });
    p.add_note(VONote { note: 62, offset: 960, duration: 240 });
    assert_eq!(
        p.notes,
        vec![
            VONote { note: 60, offset: 480, duration: 480 },
            VONote { note: 62, offset: 960, duration: 240 },
        ]
    );
    assert_eq!(p.pattern_num, 7);
    assert_eq!(p.offset, 480);
}

#[test]
fn two_patterns_of_one_bar() {
    let settings = short_settings();
    let pitches = calculate_pitches(&settings);
    let mut sequencer = Sequencer::new(&settings);
    assert_eq!(sequencer.note_length, 4);
    let mut steps = 0;
    while !sequencer.is_done(&settings) {
        let relative = sequencer.current_position - sequencer.current_pattern.offset;
        let flagged = offset_conflict(relative, &sequencer.patterns);
        let before = sequencer.note_length;
        sequencer.step(&settings, &pitches);
        if flagged {
            assert_ne!(sequencer.note_length, before);
        } else {
            assert_eq!(sequencer.note_length, before);
        }
        steps += 1;
    }
    assert_eq!(steps, 4);
    assert_eq!(sequencer.patterns.len(), 2);
    for p in &sequencer.patterns {
        let bar_length: usize = p.notes.iter().map(|n| n.duration).sum();
        assert!(bar_length > 1920);
        let before_last: usize = p.notes[..p.notes.len() - 1].iter().map(|n| n.duration).sum();
        assert!(before_last <= 1920);
    }
    assert_eq!(
        sequencer.patterns[0],
        VOPattern {
            notes: vec![
                VONote { note: 60, offset: 0, duration: 1920 },
                VONote { note: 62, offset: 1920, duration: 1920 },
            ],
            pattern_num: 0,
            offset: 0,
        }
    );
    assert_eq!(
        sequencer.patterns[1],
        VOPattern {
            notes: vec![
                VONote { note: 64, offset: 3840, duration: 1440 },
                VONote { note: 72, offset: 5280, duration: 1440 },
            ],
            pattern_num: 1,
            offset: 3840,
        }
    );
    assert_eq!(sequencer.current_position, 6720);
    assert_eq!(sequencer.current_bar_length, 0);
    assert!(sequencer.current_pattern.notes.is_empty());
    assert_eq!(sequencer.current_pattern.offset, 6720);
    assert_eq!(sequencer.current_pattern.pattern_num, 2);
}

#[test]
fn the_walk_turns_round_at_the_end_of_the_range() {
    let settings = CompositionSettings {
        pattern_bars: 2,
        pattern_num: 1,
        n1_length: 1,
        n2_length: 1,
        min_octave: 4,
        max_octave: 4,
        scale: vec!["C".to_string(), "D".to_string(), "E".to_string()],
        ..CompositionSettings::default()
    };
    let pitches = calculate_pitches(&settings);
    let mut sequencer = Sequencer::new(&settings);
    while !sequencer.is_done(&settings) {
        sequencer.step(&settings, &pitches);
    }
    let notes: Vec<usize> = sequencer.patterns[0].notes.iter().map(|n| n.note).collect();
    assert_eq!(notes, vec![60, 62, 64, 64, 62, 60, 60, 62, 64]);
    let offsets = sequencer.patterns[0].get_offsets();
    assert_eq!(offsets, vec![0, 480, 960, 1440, 1920, 2400, 2880, 3360, 3840]);
    assert_eq!(sequencer.cursor, 0);
    assert!(sequencer.descending);
}

#[test]
fn the_note_length_stays_swapped_until_the_next_conflict() {
    let settings = CompositionSettings::default();
    let pitches = calculate_pitches(&settings);
    let mut sequencer = Sequencer::new(&settings);
    let mut lengths = Vec::new();
    while !sequencer.is_done(&settings) {
        sequencer.step(&settings, &pitches);
        lengths.push(sequencer.note_length);
    }
    assert_eq!(
        lengths,
        vec![4, 4, 4, 4, 4, 3, 3, 3, 3, 4, 3, 4, 3, 3, 3, 3, 4, 3, 4, 3, 4, 3]
    );
    assert_eq!(sequencer.patterns.len(), 4);
    let starts: Vec<usize> = sequencer.patterns.iter().map(|p| p.offset).collect();
    assert_eq!(starts, vec![0, 9600, 18720, 28320]);
    assert_eq!(sequencer.current_position, 36480);
    let notes: Vec<usize> = sequencer.patterns[2].notes.iter().map(|n| n.note).collect();
    assert_eq!(notes, vec![59, 48, 50, 50, 48, 59]);
}

#[test]
fn emit_repeats_a_pattern_to_the_end_of_the_composition() {
    let patterns = vec![
        pattern(0, &[(60, 0, 480), (62, 480, 480)]),
        pattern(960, &[(64, 960, 960)]),
    ];
    // The first pattern spans 960 ticks and has 2400 to cover: three rounds.
    // The second spans 960 ticks and has 1440 to cover: two rounds.
    let events = emit(120, &patterns, 2400);
    assert_eq!(
        events,
        vec![
            Event::SetTempo { high: 0, middle: 0, low: 120 },
            Event::TrackChange,
            note_on(480, 60),
            note_on(480, 62),
            note_on(480, 60),
            note_on(480, 62),
            note_on(480, 60),
            note_on(480, 62),
            note_on(960, 64),
            note_on(960, 64),
            Event::EndOfTrack,
        ]
    );
}

#[test]
fn emit_counts_rounds_by_the_range_of_the_pattern() {
    let patterns = vec![pattern(0, &[(60, 0, 480), (62, 480, 480)])];
    let rounds = |total: usize| (emit(120, &patterns, total).len() - 3) / 2;
    assert_eq!(rounds(0), 0);
    assert_eq!(rounds(1), 1);
    assert_eq!(rounds(960), 1);
    assert_eq!(rounds(961), 2);
    assert_eq!(rounds(1920), 2);
    assert_eq!(rounds(1921), 3);
}

#[test]
fn emit_without_patterns_frames_an_empty_track() {
    let events = emit(120, &Vec::new(), 0);
    assert_eq!(
        events,
        vec![Event::SetTempo { high: 0, middle: 0, low: 120 }, Event::TrackChange, Event::EndOfTrack]
    );
}

#[test]
fn a_pattern_at_the_end_of_the_composition_is_not_replayed() {
    let patterns = vec![pattern(0, &[(60, 0, 480)]), VOPattern::new(1, 480)];
    let events = emit(120, &patterns, 480);
    assert_eq!(
        events,
        vec![
            Event::SetTempo { high: 0, middle: 0, low: 120 },
            Event::TrackChange,
            note_on(480, 60),
            Event::EndOfTrack,
        ]
    );
}

#[test]
fn the_tempo_is_split_into_three_bytes() {
    let first = |tempo: usize| emit(tempo, &Vec::new(), 0)[0];
    assert_eq!(first(120), Event::SetTempo { high: 0, middle: 0, low: 120 });
    assert_eq!(first(0x12_34_56), Event::SetTempo { high: 0x12, middle: 0x34, low: 0x56 });
    assert_eq!(first(0x01_00), Event::SetTempo { high: 0, middle: 1, low: 0 });
    assert_eq!(first(0xAB_12_34_56), Event::SetTempo { high: 0x12, middle: 0x34, low: 0x56 });
}

#[test]
fn compose_renders_the_sequenced_patterns() {
    let settings = short_settings();
    let pitches = calculate_pitches(&settings);
    let events = compose(&settings, pitches).unwrap();
    assert_eq!(
        events,
        vec![
            Event::SetTempo { high: 0, middle: 0, low: 120 },
            Event::TrackChange,
            note_on(1920, 60),
            note_on(1920, 62),
            note_on(1920, 60),
            note_on(1920, 62),
            note_on(1440, 64),
            note_on(1440, 72),
            Event::EndOfTrack,
        ]
    );
}

#[test]
fn compose_needs_a_pitch() {
    let settings = short_settings();
    assert_eq!(compose(&settings, Vec::new()), Err(CompositionError::EmptyPitchRange));
}

#[test]
fn compose_checks_the_settings_first() {
    let settings = CompositionSettings { n1_length: 0, ..short_settings() };
    assert_eq!(
        compose(&settings, Vec::new()),
        Err(CompositionError::FirstNoteLengthNotPositive)
    );
    assert_eq!(
        compose(&settings, vec![4_186_016]),
        Err(CompositionError::FirstNoteLengthNotPositive)
    );
}

#[test]
fn compose_clamps_pitches_beyond_the_midi_range() {
    let settings = CompositionSettings {
        pattern_bars: 0,
        pattern_num: 1,
        min_octave: 9,
        max_octave: 9,
        scale: vec!["B".to_string()],
        ..CompositionSettings::default()
    };
    let pitches = calculate_pitches(&settings);
    let events = compose(&settings, pitches).unwrap();
    assert_eq!(events[2], note_on(1920, 127));
}

#[test]
fn no_patterns_no_notes() {
    let settings = CompositionSettings { pattern_num: 0, ..short_settings() };
    let pitches = calculate_pitches(&settings);
    let events = compose(&settings, pitches).unwrap();
    assert_eq!(
        events,
        vec![Event::SetTempo { high: 0, middle: 0, low: 120 }, Event::TrackChange, Event::EndOfTrack]
    );
}
