//! Melody composition engine: walks a musical scale across an octave range,
//! quantizes every pitch to a MIDI note, arranges the notes into bar-bounded
//! patterns and renders the patterns as an ordered list of track events.

use vstd::prelude::*;

pub mod composer;
pub mod pitch;
pub mod quantizer;

use crate::composer::{composed_events, Event};
use crate::pitch::{calculate_pitches, parse_name, parse_note_name, range_frequencies, MAX_OCTAVE};

verus! {

/// Most ticks that a composition may span: the largest time that the
/// variable-length quantity of a track event holds.
pub const MAX_TICKS: usize = 0x0FFF_FFFF;

/// What a composition is made from.
#[derive(Clone, Debug, PartialEq, Eq)]
pub struct CompositionSettings {
    /// Beats per minute.
    pub tempo: usize,
    /// Beats in a bar.
    pub beat_amount: usize,
    /// Note value of a beat.
    pub beat_unit: usize,
    /// First note length, in quarter notes.
    pub n1_length: usize,
    /// Second note length, in quarter notes.
    pub n2_length: usize,
    /// Whole notes that a pattern has to exceed before it is complete.
    pub pattern_bars: usize,
    /// Number of patterns.
    pub pattern_num: usize,
    /// Lowest octave of the pitch range.
    pub min_octave: usize,
    /// Highest octave of the pitch range.
    pub max_octave: usize,
    /// Note names of the scale, in walking order.
    pub scale: Vec<String>,
    /// Whether every pattern is meant for a track of its own.
    pub unique_per_pattern: bool,
}

/// Mathematical value of the settings.
pub struct SettingsModel {
    pub tempo: nat,
    pub beat_amount: nat,
    pub beat_unit: nat,
    pub n1_length: nat,
    pub n2_length: nat,
    pub pattern_bars: nat,
    pub pattern_num: nat,
    pub min_octave: nat,
    pub max_octave: nat,
    pub scale: Seq<Seq<char>>,
    pub unique_per_pattern: bool,
}

impl View for CompositionSettings {
    type V = SettingsModel;

    open spec fn view(&self) -> SettingsModel {
        SettingsModel {
            tempo: self.tempo as nat,
            beat_amount: self.beat_amount as nat,
            beat_unit: self.beat_unit as nat,
            n1_length: self.n1_length as nat,
            n2_length: self.n2_length as nat,
            pattern_bars: self.pattern_bars as nat,
            pattern_num: self.pattern_num as nat,
            min_octave: self.min_octave as nat,
            max_octave: self.max_octave as nat,
            scale: Seq::new(self.scale@.len(), |i: int| self.scale@[i]@),
            unique_per_pattern: self.unique_per_pattern,
        }
    }
}

/// Why a composition cannot be made.
#[derive(Clone, Copy, Debug, PartialEq, Eq, Structural)]
pub enum CompositionError {
    /// The scale has no note.
    EmptyScale,
    /// The scale entry at `index` is the first that names no note.
    UnknownNote { index: usize },
    /// The lowest octave lies above the highest.
    InvalidOctaveRange { min_octave: usize, max_octave: usize },
    /// The highest octave lies above the highest octave of a pitch.
    OctaveOutOfRange { max_octave: usize },
    /// The first note length is zero.
    FirstNoteLengthNotPositive,
    /// The second note length is zero.
    SecondNoteLengthNotPositive,
    /// The patterns may span more ticks than a composition can.
    TimelineTooLong,
    /// There is no pitch to make notes from.
    EmptyPitchRange,
}

impl SettingsModel {
    /// The scale entry at `i` names a note.
    pub open spec fn resolvable(self, i: int) -> bool {
        parse_note_name(self.scale[i]) is Some
    }

    /// Every scale entry names a note.
    pub open spec fn scale_resolves(self) -> bool {
        forall|i: int| 0 <= i < self.scale.len() ==> self.resolvable(i)
    }

    /// The longer of the two note lengths, in ticks.
    pub open spec fn longest_note(self) -> nat {
        if self.n1_length >= self.n2_length {
            self.n1_length * 480
        } else {
            self.n2_length * 480
        }
    }

    /// Most ticks that a pattern spans: it is complete with the first note
    /// that takes it beyond its bars.
    pub open spec fn pattern_bound(self) -> nat {
        self.pattern_bars * 1920 + self.longest_note()
    }

    /// Most ticks that the patterns span together.
    pub open spec fn timeline_bound(self) -> nat {
        self.pattern_num * self.pattern_bound()
    }

    /// The settings describe a composition that can be made.
    pub open spec fn valid(self) -> bool {
        &&& self.scale.len() > 0
        &&& self.scale_resolves()
        &&& self.min_octave <= self.max_octave
        &&& self.max_octave <= MAX_OCTAVE
        &&& self.n1_length > 0
        &&& self.n2_length > 0
        &&& self.timeline_bound() <= MAX_TICKS
    }

    /// The settings are refused with `error`: it names the first of the
    /// conditions of `valid`, in their order, that does not hold.
    pub open spec fn rejects(self, error: CompositionError) -> bool {
        match error {
            CompositionError::EmptyScale => self.scale.len() == 0,
            CompositionError::UnknownNote { index } => {
                &&& index < self.scale.len()
                &&& !self.resolvable(index as int)
                &&& forall|j: int| 0 <= j < index ==> self.resolvable(j)
            },
            CompositionError::InvalidOctaveRange { min_octave, max_octave } => {
                &&& self.scale.len() > 0
                &&& self.scale_resolves()
                &&& self.min_octave > self.max_octave
                &&& min_octave == self.min_octave
                &&& max_octave == self.max_octave
            },
            CompositionError::OctaveOutOfRange { max_octave } => {
                &&& self.scale.len() > 0
                &&& self.scale_resolves()
                &&& self.min_octave <= self.max_octave
                &&& self.max_octave > MAX_OCTAVE
                &&& max_octave == self.max_octave
            },
            CompositionError::FirstNoteLengthNotPositive => {
                &&& self.scale.len() > 0
                &&& self.scale_resolves()
                &&& self.min_octave <= self.max_octave <= MAX_OCTAVE
                &&& self.n1_length == 0
            },
            CompositionError::SecondNoteLengthNotPositive => {
                &&& self.scale.len() > 0
                &&& self.scale_resolves()
                &&& self.min_octave <= self.max_octave <= MAX_OCTAVE
                &&& self.n1_length > 0
                &&& self.n2_length == 0
            },
            CompositionError::TimelineTooLong => {
                &&& self.scale.len() > 0
                &&& self.scale_resolves()
                &&& self.min_octave <= self.max_octave <= MAX_OCTAVE
                &&& self.n1_length > 0
                &&& self.n2_length > 0
                &&& self.timeline_bound() > MAX_TICKS
            },
            CompositionError::EmptyPitchRange => false,
        }
    }
}

impl CompositionSettings {
    /// Checks the settings: `Ok` where a composition can be made from them,
    /// else the first condition that they break.
    pub fn validate(&self) -> (checked: Result<(), CompositionError>)
        ensures
            checked is Ok <==> self@.valid(),
            checked matches Err(error) ==> self@.rejects(error),
    {
        if self.scale.len() == 0 {
            return Err(CompositionError::EmptyScale);
        }
        let mut index: usize = 0;
        while index < self.scale.len()
            invariant
                index <= self.scale@.len(),
                forall|j: int| 0 <= j < index ==> self@.resolvable(j),
            decreases self.scale@.len() - index,
        {
            if parse_name(self.scale[index].as_str()).is_none() {
                assert(!self@.resolvable(index as int));
                return Err(CompositionError::UnknownNote { index });
            }
            index += 1;
        }
        if self.min_octave > self.max_octave {
            return Err(
                CompositionError::InvalidOctaveRange {
                    min_octave: self.min_octave,
                    max_octave: self.max_octave,
                },
            );
        }
        if self.max_octave > MAX_OCTAVE {
            return Err(CompositionError::OctaveOutOfRange { max_octave: self.max_octave });
        }
        if self.n1_length == 0 {
            return Err(CompositionError::FirstNoteLengthNotPositive);
        }
        if self.n2_length == 0 {
            return Err(CompositionError::SecondNoteLengthNotPositive);
        }
        if self.pattern_num == 0 {
            assert(self@.timeline_bound() == 0) by (nonlinear_arith)
                requires
                    self@.pattern_num == 0,
                    self@.timeline_bound() == self@.pattern_num * self@.pattern_bound(),
            ;
            return Ok(());
        }
        let longest = if self.n1_length >= self.n2_length {
            self.n1_length
        } else {
            self.n2_length
        };
        if longest > MAX_TICKS / 480 || self.pattern_bars > MAX_TICKS / 1920 {
            assert(self@.timeline_bound() > MAX_TICKS) by (nonlinear_arith)
                requires
                    self@.pattern_num >= 1,
                    self@.pattern_bound() > MAX_TICKS,
                    self@.timeline_bound() == self@.pattern_num * self@.pattern_bound(),
            ;
            return Err(CompositionError::TimelineTooLong);
        }
        let pattern_bound = self.pattern_bars * 1920 + longest * 480;
        if self.pattern_num > MAX_TICKS / pattern_bound {
            assert(self@.timeline_bound() > MAX_TICKS) by (nonlinear_arith)
                requires
                    self@.pattern_bound() > 0,
                    self@.pattern_num > MAX_TICKS as nat / self@.pattern_bound(),
                    self@.timeline_bound() == self@.pattern_num * self@.pattern_bound(),
            ;
            return Err(CompositionError::TimelineTooLong);
        }
        assert(self@.timeline_bound() <= MAX_TICKS) by (nonlinear_arith)
            requires
                self@.pattern_bound() > 0,
                self@.pattern_num <= MAX_TICKS as nat / self@.pattern_bound(),
                self@.timeline_bound() == self@.pattern_num * self@.pattern_bound(),
        ;
        Ok(())
    }
}

impl Default for CompositionSettings {
    /// A melody of four patterns of four bars at 120 beats per minute, on
    /// the seven naturals from E in the octaves 2 and 3.
    fn default() -> (settings: Self)
        ensures
            settings@ == (SettingsModel {
                tempo: 120,
                beat_amount: 4,
                beat_unit: 4,
                n1_length: 4,
                n2_length: 3,
                pattern_bars: 4,
                pattern_num: 4,
                min_octave: 2,
                max_octave: 3,
                scale: seq!["E"@, "F"@, "G"@, "A"@, "B"@, "C"@, "D"@],
                unique_per_pattern: false,
            }),
    {
        let mut scale: Vec<String> = Vec::new();
        scale.push("E".to_string());
        scale.push("F".to_string());
        scale.push("G".to_string());
        scale.push("A".to_string());
        scale.push("B".to_string());
        scale.push("C".to_string());
        scale.push("D".to_string());
        let settings = CompositionSettings {
            tempo: 120,
            beat_amount: 4,
            beat_unit: 4,
            n1_length: 4,
            n2_length: 3,
            pattern_bars: 4,
            pattern_num: 4,
            min_octave: 2,
            max_octave: 3,
            scale,
            unique_per_pattern: false,
        };
        assert(settings@.scale =~= seq!["E"@, "F"@, "G"@, "A"@, "B"@, "C"@, "D"@]);
        settings
    }
}

/// The events of the composition that the settings describe: those that
/// sequencing the pitch range of the scale comes to.
pub open spec fn composition_events(cfg: SettingsModel) -> Seq<Event> {
    composed_events(
        cfg,
        range_frequencies(
            cfg.scale,
            cfg.min_octave,
            (cfg.max_octave - cfg.min_octave + 1) as nat,
        ),
    )
}

/// Composes the events of the melody that the settings describe, or tells
/// why the settings describe none. The events are for the caller to store.
pub fn compose<P>(composition: CompositionSettings, _output: OutputSettings<P>) -> (composed:
    Result<Vec<Event>, CompositionError>)
    ensures
        composed is Ok <==> composition@.valid(),
        composed matches Ok(events) ==> events@ == composition_events(composition@),
        composed matches Ok(events) ==> {
            &&& events@.len() >= 3
            &&& events@[0] is SetTempo
            &&& events@[1] is TrackChange
            &&& events@.last() is EndOfTrack
            &&& forall|i: int| 2 <= i < events@.len() - 1 ==> (#[trigger] events@[i]) is NoteOn
        },
        composed matches Err(error) ==> composition@.rejects(error),
{
    match composition.validate() {
        Err(error) => {
            return Err(error);
        },
        Ok(()) => {},
    }
    let pitches = calculate_pitches(&composition);
    assert(pitches@.len() > 0) by (nonlinear_arith)
        requires
            pitches@.len() == composition@.scale.len() * (composition@.max_octave
                - composition@.min_octave + 1),
            composition@.scale.len() > 0,
            composition@.max_octave >= composition@.min_octave,
    ;
    crate::composer::compose(&composition, pitches)
}

/// Settings are refused for one reason only, and valid settings for none.
pub proof fn lemma_rejection_unique(
    cfg: SettingsModel,
    first: CompositionError,
    second: CompositionError,
)
    requires
        cfg.rejects(first),
    ensures
        !cfg.valid(),
        cfg.rejects(second) ==> first == second,
{
    if let CompositionError::UnknownNote { index } = first {
        assert(!cfg.resolvable(index as int));
        if let CompositionError::UnknownNote { index: other } = second {
            if cfg.rejects(second) {
                assert(!cfg.resolvable(other as int));
            }
        }
    }
    if let CompositionError::UnknownNote { index } = second {
        if cfg.rejects(second) {
            assert(!cfg.resolvable(index as int));
        }
    }
}

/// Among the first `upto` entries of a scale of which one names no note,
/// one is the first to name none.
proof fn lemma_first_unknown_note(cfg: SettingsModel, upto: int)
    requires
        0 <= upto <= cfg.scale.len(),
        exists|i: int| 0 <= i < upto && !cfg.resolvable(i),
    ensures
        exists|index: int|
            0 <= index < upto && !cfg.resolvable(index) && forall|j: int|
                0 <= j < index ==> cfg.resolvable(j),
    decreases upto,
{
    if exists|i: int| 0 <= i < upto - 1 && !cfg.resolvable(i) {
        lemma_first_unknown_note(cfg, upto - 1);
    } else {
        let index = upto - 1;
        assert(0 <= index < upto && !cfg.resolvable(index) && forall|j: int|
            0 <= j < index ==> cfg.resolvable(j));
    }
}

/// Settings that are not valid are refused for a reason, as long as the
/// values of that reason fit the machine's numbers.
pub proof fn lemma_invalid_is_rejected(cfg: SettingsModel)
    requires
        !cfg.valid(),
        cfg.scale.len() <= usize::MAX,
        cfg.min_octave <= usize::MAX,
        cfg.max_octave <= usize::MAX,
    ensures
        exists|error: CompositionError| cfg.rejects(error),
{
    if cfg.scale.len() == 0 {
        assert(cfg.rejects(CompositionError::EmptyScale));
    } else if !cfg.scale_resolves() {
        lemma_first_unknown_note(cfg, cfg.scale.len() as int);
        let index = choose|index: int|
            0 <= index < cfg.scale.len() && !cfg.resolvable(index) && forall|j: int|
                0 <= j < index ==> cfg.resolvable(j);
        assert(cfg.rejects(CompositionError::UnknownNote { index: index as usize }));
    } else if cfg.min_octave > cfg.max_octave {
        assert(cfg.rejects(
            CompositionError::InvalidOctaveRange {
                min_octave: cfg.min_octave as usize,
                max_octave: cfg.max_octave as usize,
            },
        ));
    } else if cfg.max_octave > MAX_OCTAVE {
        assert(cfg.rejects(CompositionError::OctaveOutOfRange { max_octave: cfg.max_octave as usize }));
    } else if cfg.n1_length == 0 {
        assert(cfg.rejects(CompositionError::FirstNoteLengthNotPositive));
    } else if cfg.n2_length == 0 {
        assert(cfg.rejects(CompositionError::SecondNoteLengthNotPositive));
    } else {
        assert(cfg.rejects(CompositionError::TimelineTooLong));
    }
}

/// Composing is a function of the settings: settings of one value are
/// valid together, are refused for the same reason, and come to the same
/// events.
pub proof fn lemma_composition_deterministic(first: CompositionSettings, second: CompositionSettings)
    requires
        first@ == second@,
    ensures
        first@.valid() == second@.valid(),
        forall|error: CompositionError| first@.rejects(error) == second@.rejects(error),
        composition_events(first@) == composition_events(second@),
{
}

/// Where a rendered composition is to be stored: a directory and a file name.
pub struct OutputSettings<P> {
    pub path: P,
    pub file_name: String,
}

impl Default for OutputSettings<&str> {
    fn default() -> (out: Self)
        ensures
            out.path@ == ""@,
            out.file_name@ == "output.mid"@,
    {
        Self { path: "", file_name: "output.mid".to_string() }
    }
}

} // verus!
