use mmb_core::composer::Event;
use mmb_core::{compose, CompositionError, CompositionSettings, OutputSettings};

fn scale(names: &[&str]) -> Vec<String> {
    names.iter().map(|name| name.to_string()).collect()
}

#[test]
fn default_settings() {
    let settings = CompositionSettings::default();
    assert_eq!(settings.tempo, 120);
    assert_eq!(settings.beat_amount, 4);
    assert_eq!(settings.beat_unit, 4);
    assert_eq!(settings.n1_length, 4);
    assert_eq!(settings.n2_length, 3);
    assert_eq!(settings.pattern_bars, 4);
    assert_eq!(settings.pattern_num, 4);
    assert_eq!(settings.min_octave, 2);
    assert_eq!(settings.max_octave, 3);
    assert_eq!(settings.scale, scale(&["E", "F", "G", "A", "B", "C", "D"]));
    assert!(!settings.unique_per_pattern);
    assert_eq!(settings.validate(), Ok(()));
}

#[test]
fn default_output() {
    let output = OutputSettings::default();
    assert_eq!(output.path, "");
    assert_eq!(output.file_name, "output.mid");
}

#[test]
fn an_empty_scale_is_refused() {
    let settings = CompositionSettings { scale: Vec::new(), ..CompositionSettings::default() };
    assert_eq!(settings.validate(), Err(CompositionError::EmptyScale));
    assert_eq!(compose(settings, OutputSettings::default()), Err(CompositionError::EmptyScale));
}

#[test]
fn the_first_unknown_note_is_named() {
    let settings = CompositionSettings {
        scale: scale(&["E", "Fb", "H", "G", "X"]),
        ..CompositionSettings::default()
    };
    assert_eq!(settings.validate(), Err(CompositionError::UnknownNote { index: 2 }));
    let settings = CompositionSettings { scale: scale(&[""]), ..CompositionSettings::default() };
    assert_eq!(settings.validate(), Err(CompositionError::UnknownNote { index: 0 }));
}

#[test]
fn the_octaves_have_to_be_in_order() {
    let settings =
        CompositionSettings { min_octave: 4, max_octave: 3, ..CompositionSettings::default() };
    assert_eq!(
        settings.validate(),
        Err(CompositionError::InvalidOctaveRange { min_octave: 4, max_octave: 3 })
    );
    let settings =
        CompositionSettings { min_octave: 3, max_octave: 3, ..CompositionSettings::default() };
    assert_eq!(settings.validate(), Ok(()));
}

#[test]
fn the_octaves_have_to_fit_a_frequency() {
    let settings =
        CompositionSettings { min_octave: 0, max_octave: 46, ..CompositionSettings::default() };
    assert_eq!(
        settings.validate(),
        Err(CompositionError::OctaveOutOfRange { max_octave: 46 })
    );
    let settings =
        CompositionSettings { min_octave: 45, max_octave: 45, ..CompositionSettings::default() };
    assert_eq!(settings.validate(), Ok(()));
}

#[test]
fn note_lengths_have_to_be_positive() {
    let settings = CompositionSettings { n1_length: 0, ..CompositionSettings::default() };
    assert_eq!(settings.validate(), Err(CompositionError::FirstNoteLengthNotPositive));
    let settings = CompositionSettings { n2_length: 0, ..CompositionSettings::default() };
    assert_eq!(settings.validate(), Err(CompositionError::SecondNoteLengthNotPositive));
    let settings =
        CompositionSettings { n1_length: 0, n2_length: 0, ..CompositionSettings::default() };
    assert_eq!(settings.validate(), Err(CompositionError::FirstNoteLengthNotPositive));
}

#[test]
fn the_patterns_have_to_fit_the_ticks() {
    // A pattern spans 4 * 1920 + 4 * 480 = 9600 ticks at most, and
    // 27962 * 9600 is the largest multiple within 0x0FFF_FFFF.
    let settings = CompositionSettings { pattern_num: 27_962, ..CompositionSettings::default() };
    assert_eq!(settings.validate(), Ok(()));
    let settings = CompositionSettings { pattern_num: 27_963, ..CompositionSettings::default() };
    assert_eq!(settings.validate(), Err(CompositionError::TimelineTooLong));
    let settings =
        CompositionSettings { n2_length: usize::MAX, ..CompositionSettings::default() };
    assert_eq!(settings.validate(), Err(CompositionError::TimelineTooLong));
    let settings =
        CompositionSettings { pattern_bars: usize::MAX, ..CompositionSettings::default() };
    assert_eq!(settings.validate(), Err(CompositionError::TimelineTooLong));
    let settings = CompositionSettings {
        pattern_bars: usize::MAX,
        pattern_num: 0,
        ..CompositionSettings::default()
    };
    assert_eq!(settings.validate(), Ok(()));
}

#[test]
fn the_first_broken_condition_is_reported() {
    let settings = CompositionSettings {
        scale: scale(&["E", "?"]),
        min_octave: 9,
        max_octave: 1,
        n1_length: 0,
        ..CompositionSettings::default()
    };
    assert_eq!(settings.validate(), Err(CompositionError::UnknownNote { index: 1 }));
    let settings = CompositionSettings {
        min_octave: 50,
        max_octave: 49,
        n1_length: 0,
        ..CompositionSettings::default()
    };
    assert_eq!(
        settings.validate(),
        Err(CompositionError::InvalidOctaveRange { min_octave: 50, max_octave: 49 })
    );
}

#[test]
fn the_default_composition() {
    let events = compose(CompositionSettings::default(), OutputSettings::default()).unwrap();
    assert_eq!(events.len(), 58);
    assert_eq!(events[0], Event::SetTempo { high: 0, middle: 0, low: 120 });
    assert_eq!(events[1], Event::TrackChange);
    assert_eq!(events[2], Event::NoteOn { delta_time: 1920, channel: 0, note: 40, velocity: 100 });
    assert_eq!(events[3], Event::NoteOn { delta_time: 1920, channel: 0, note: 41, velocity: 100 });
    assert_eq!(events[56], Event::NoteOn { delta_time: 1440, channel: 0, note: 38, velocity: 100 });
    assert_eq!(events[57], Event::EndOfTrack);
}

#[test]
fn events_come_in_a_fixed_order() {
    let all = [
        CompositionSettings::default(),
        CompositionSettings { pattern_num: 0, ..CompositionSettings::default() },
        CompositionSettings {
            tempo: 90,
            n1_length: 1,
            n2_length: 2,
            pattern_bars: 1,
            pattern_num: 7,
            min_octave: 0,
            max_octave: 9,
            scale: scale(&["C", "Eb", "F#", "A"]),
            ..CompositionSettings::default()
        },
    ];
    for settings in all {
        let events = compose(settings, OutputSettings::default()).unwrap();
        let last = events.len() - 1;
        assert!(matches!(events[0], Event::SetTempo { .. }));
        assert!(matches!(events[1], Event::TrackChange));
        assert!(matches!(events[last], Event::EndOfTrack));
        for event in &events[2..last] {
            assert!(matches!(event, Event::NoteOn { .. }));
        }
        let count = |wanted: fn(&Event) -> bool| events.iter().filter(|e| wanted(e)).count();
        assert_eq!(count(|e| matches!(e, Event::SetTempo { .. })), 1);
        assert_eq!(count(|e| matches!(e, Event::TrackChange)), 1);
        assert_eq!(count(|e| matches!(e, Event::EndOfTrack)), 1);
        assert_eq!(count(|e| matches!(e, Event::NoteOn { .. })), events.len() - 3);
    }
}

#[test]
fn composing_twice_gives_the_same_events() {
    let first = compose(CompositionSettings::default(), OutputSettings::default());
    let second = compose(CompositionSettings::default(), OutputSettings::default());
    assert_eq!(first, second);
    let broken = CompositionSettings { scale: scale(&["Z"]), ..CompositionSettings::default() };
    let first = compose(broken.clone(), OutputSettings::default());
    let second = compose(broken, OutputSettings { path: "elsewhere", file_name: String::new() });
    assert_eq!(first, Err(CompositionError::UnknownNote { index: 0 }));
    assert_eq!(first, second);
}
