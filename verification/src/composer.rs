//! Patterns of notes, the conflict rule between patterns, the sequencer that
//! builds patterns from a pitch range, and the rendering of finished patterns
//! as track events.

use vstd::prelude::*;
use vstd::arithmetic::div_mod::lemma_fundamental_div_mod_converse_div;
use crate::pitch::{frequencies, frequency_to_midi_note, Pitches};
use crate::quantizer::midi_note;
use crate::{CompositionError, CompositionSettings, SettingsModel, MAX_TICKS};

verus! {

/// Note values of common time, each a fixed division of the whole note.
#[derive(Clone, Copy, Debug, PartialEq, Eq, Structural)]
pub enum NoteValue {
    Whole,
    Half,
    Quarter,
    Eighth,
    Sixteenth,
    ThirtySecond,
    SixtyFourth,
}

impl NoteValue {
    /// Length of the note value in ticks.
    pub open spec fn spec_ticks(self) -> nat {
        match self {
            NoteValue::Whole => 1920,
            NoteValue::Half => 960,
            NoteValue::Quarter => 480,
            NoteValue::Eighth => 240,
            NoteValue::Sixteenth => 120,
            NoteValue::ThirtySecond => 60,
            NoteValue::SixtyFourth => 30,
        }
    }

    /// Length of the note value in ticks.
    pub fn ticks(self) -> (t: usize)
        ensures
            t == self.spec_ticks(),
    {
        match self {
            NoteValue::Whole => 1920,
            NoteValue::Half => 960,
            NoteValue::Quarter => 480,
            NoteValue::Eighth => 240,
            NoteValue::Sixteenth => 120,
            NoteValue::ThirtySecond => 60,
            NoteValue::SixtyFourth => 30,
        }
    }
}

/// One note of a pattern: a MIDI note number, the tick at which it starts
/// and its length in ticks.
#[derive(Clone, Copy, Debug, PartialEq, Eq, Structural)]
pub struct VONote {
    pub note: usize,
    pub offset: usize,
    pub duration: usize,
}

/// Mathematical value of a pattern: its notes in temporal order, its sequence
/// number and the tick at which it starts.
pub struct PatternModel {
    pub notes: Seq<VONote>,
    pub pattern_num: nat,
    pub offset: nat,
}

/// Whether a note already placed at relative offset `placed` rules out a new
/// note at relative offset `candidate`: the two coincide, or the candidate
/// falls on a whole multiple of the placed offset.
pub open spec fn offsets_conflict(placed: int, candidate: int) -> bool {
    placed == candidate || (placed > 0 && candidate % placed == 0)
}

impl PatternModel {
    /// The notes start at the pattern's own offset, follow each other in time
    /// and end within the tick range.
    pub open spec fn wf(self) -> bool {
        &&& self.notes.len() > 0 ==> self.notes[0].offset == self.offset
        &&& forall|i: int, j: int|
            0 <= i <= j < self.notes.len() ==> self.notes[i].offset <= self.notes[j].offset
        &&& forall|i: int|
            0 <= i < self.notes.len() ==> #[trigger] self.notes[i].offset + self.notes[i].duration
                <= usize::MAX
    }

    /// Start ticks of the notes, in order.
    pub open spec fn offsets(self) -> Seq<usize> {
        Seq::new(self.notes.len(), |i: int| self.notes[i].offset)
    }

    /// Some note of the pattern conflicts with the relative offset `other`.
    pub open spec fn conflicts(self, other: int) -> bool {
        exists|i: int|
            0 <= i < self.notes.len() && offsets_conflict(
                #[trigger] self.notes[i].offset - self.offset,
                other,
            )
    }

    /// Tick at which the first note starts; 0 for a pattern without notes.
    pub open spec fn range_start(self) -> nat {
        if self.notes.len() > 0 {
            self.notes[0].offset as nat
        } else {
            0
        }
    }

    /// Tick at which the last note ends; 0 for a pattern without notes.
    pub open spec fn range_end(self) -> nat {
        if self.notes.len() > 0 {
            (self.notes.last().offset + self.notes.last().duration) as nat
        } else {
            0
        }
    }

    /// Ticks from the start of the first note to the end of the last.
    pub open spec fn range_length(self) -> nat {
        (self.range_end() - self.range_start()) as nat
    }

    /// Whether `note` may follow the notes already present.
    pub open spec fn admits(self, note: VONote) -> bool {
        &&& note.offset + note.duration <= usize::MAX
        &&& if self.notes.len() == 0 {
            note.offset == self.offset
        } else {
            self.notes.last().offset <= note.offset
        }
    }
}

/// A block of notes generated and committed together.
#[derive(Clone, Debug, PartialEq, Eq)]
pub struct VOPattern {
    pub notes: Vec<VONote>,
    pub pattern_num: usize,
    pub offset: usize,
}

impl View for VOPattern {
    type V = PatternModel;

    open spec fn view(&self) -> PatternModel {
        PatternModel {
            notes: self.notes@,
            pattern_num: self.pattern_num as nat,
            offset: self.offset as nat,
        }
    }
}

/// The mathematical values of a list of patterns.
pub open spec fn pattern_models(patterns: Seq<VOPattern>) -> Seq<PatternModel> {
    Seq::new(patterns.len(), |k: int| patterns[k]@)
}

/// Some pattern of the list conflicts with the relative offset `note_offset`.
pub open spec fn any_pattern_conflicts(patterns: Seq<PatternModel>, note_offset: int) -> bool {
    exists|k: int| 0 <= k < patterns.len() && (#[trigger] patterns[k]).conflicts(note_offset)
}

impl VOPattern {
    /// An empty pattern with the given sequence number, starting at `offset`.
    pub fn new(pattern_num: usize, offset: usize) -> (pattern: Self)
        ensures
            pattern@ == (PatternModel { notes: Seq::empty(), pattern_num: pattern_num as nat, offset: offset as nat }),
            pattern@.wf(),
    {
        VOPattern { notes: Vec::new(), pattern_num, offset }
    }

    /// Whether a note at relative offset `other` would coincide with, or be a
    /// whole multiple of, the relative offset of a note of this pattern.
    pub fn conflicts(&self, other: usize) -> (res: bool)
        requires
            self@.wf(),
        ensures
            res == self@.conflicts(other as int),
    {
        let offsets = self.get_offsets();
        let mut i: usize = 0;
        while i < offsets.len()
            invariant
                i <= offsets.len(),
                offsets@ == self@.offsets(),
                self@.wf(),
                forall|k: int|
                    0 <= k < i ==> !offsets_conflict(
                        #[trigger] self@.notes[k].offset - self@.offset,
                        other as int,
                    ),
            decreases offsets.len() - i,
        {
            assert(self@.notes[0].offset <= self@.notes[i as int].offset);
            let actual_offset = offsets[i] - self.offset;
            if actual_offset == other || actual_offset > 0 && other % actual_offset == 0 {
                assert(offsets_conflict(self@.notes[i as int].offset - self@.offset, other as int));
                return true;
            }
            i += 1;
        }
        false
    }

    /// Appends a note that starts no earlier than the notes before it.
    pub fn add_note(&mut self, note: VONote)
        requires
            old(self)@.wf(),
            old(self)@.admits(note),
        ensures
            final(self)@ == (PatternModel { notes: old(self)@.notes.push(note), ..old(self)@ }),
            final(self)@.wf(),
    {
        self.notes.push(note);
    }

    /// Start ticks of the notes, in order.
    pub fn get_offsets(&self) -> (offsets: Vec<usize>)
        ensures
            offsets@ == self@.offsets(),
    {
        let mut offsets: Vec<usize> = Vec::new();
        let mut i: usize = 0;
        while i < self.notes.len()
            invariant
                i <= self.notes.len(),
                offsets@ == Seq::new(i as nat, |k: int| self@.notes[k].offset),
            decreases self.notes.len() - i,
        {
            offsets.push(self.notes[i].offset);
            i += 1;
        }
        offsets
    }

    /// Tick at which the first note starts; 0 for a pattern without notes.
    pub fn get_range_start_offset(&self) -> (start: usize)
        ensures
            start == self@.range_start(),
    {
        if self.notes.len() > 0 {
            self.notes[0].offset
        } else {
            0
        }
    }

    /// Tick at which the last note ends; 0 for a pattern without notes.
    pub fn get_range_end_offset(&self) -> (end: usize)
        requires
            self@.wf(),
        ensures
            end == self@.range_end(),
    {
        let n = self.notes.len();
        if n > 0 {
            let last = self.notes[n - 1];
            assert(self@.notes[n - 1].offset + self@.notes[n - 1].duration <= usize::MAX);
            last.offset + last.duration
        } else {
            0
        }
    }

    /// Ticks from the start of the first note to the end of the last.
    pub fn get_range_length(&self) -> (length: usize)
        requires
            self@.wf(),
        ensures
            length == self@.range_length(),
    {
        proof {
            if self@.notes.len() > 0 {
                assert(self@.notes[0].offset <= self@.notes[self@.notes.len() - 1].offset);
            }
        }
        self.get_range_end_offset() - self.get_range_start_offset()
    }
}

/// Whether a note at relative offset `note_offset` conflicts with any of the
/// given patterns.
pub fn offset_conflict(note_offset: usize, patterns: &[VOPattern]) -> (res: bool)
    requires
        forall|k: int| 0 <= k < patterns@.len() ==> (#[trigger] patterns@[k])@.wf(),
    ensures
        res == any_pattern_conflicts(pattern_models(patterns@), note_offset as int),
{
    let mut k: usize = 0;
    while k < patterns.len()
        invariant
            k <= patterns@.len(),
            forall|j: int| 0 <= j < patterns@.len() ==> (#[trigger] patterns@[j])@.wf(),
            forall|j: int|
                0 <= j < k ==> !(#[trigger] pattern_models(patterns@)[j]).conflicts(
                    note_offset as int,
                ),
        decreases patterns@.len() - k,
    {
        let p = &patterns[k];
        if p.notes.len() > 0 && p.conflicts(note_offset) {
            assert(pattern_models(patterns@)[k as int].conflicts(note_offset as int));
            return true;
        }
        k += 1;
    }
    false
}

/// A pattern without notes conflicts with no offset.
pub proof fn lemma_empty_pattern_never_conflicts(pattern: PatternModel, other: int)
    requires
        pattern.notes.len() == 0,
    ensures
        !pattern.conflicts(other),
{
}

/// A pattern of one note conflicts with an offset exactly when that offset
/// equals the note's relative offset, or the relative offset is positive and
/// divides it; a note at relative offset 0 thus conflicts with offset 0 only.
pub proof fn lemma_single_note_conflict(pattern: PatternModel, other: int)
    requires
        pattern.notes.len() == 1,
    ensures
        pattern.conflicts(other) <==> offsets_conflict(
            pattern.notes[0].offset - pattern.offset,
            other,
        ),
        pattern.notes[0].offset == pattern.offset ==> (pattern.conflicts(other) <==> other == 0),
{
    if offsets_conflict(pattern.notes[0].offset - pattern.offset, other) {
        assert(pattern.conflicts(other));
    }
}

/// Sum of the lengths of the notes, in ticks.
pub open spec fn total_duration(notes: Seq<VONote>) -> nat
    decreases notes.len(),
{
    if notes.len() == 0 {
        0
    } else {
        total_duration(notes.drop_last()) + notes.last().duration as nat
    }
}

/// Ticks that a pattern has to exceed before it is complete.
pub open spec fn flush_threshold(cfg: SettingsModel) -> nat {
    cfg.pattern_bars * 1920
}

/// Ticks kept free for the patterns that are not complete yet, `committed`
/// being the number of those that are.
pub open spec fn reserve(cfg: SettingsModel, committed: nat) -> int {
    (cfg.pattern_num - committed) * cfg.pattern_bound()
}

/// The other of the two note lengths.
pub open spec fn toggled(cfg: SettingsModel, note_length: nat) -> nat {
    if note_length == cfg.n1_length {
        cfg.n2_length
    } else {
        cfg.n1_length
    }
}

/// The pitch under the cursor: counted from the front of the range on the
/// way up, from its back on the way down.
pub open spec fn pitch_at(pitches: Seq<nat>, cursor: nat, descending: bool) -> nat {
    if descending {
        pitches[pitches.len() - 1 - cursor]
    } else {
        pitches[cursor as int]
    }
}

/// A note as the sequencer makes it: a MIDI note of one of the two lengths
/// that ends within the composition.
pub open spec fn note_fits(cfg: SettingsModel, note: VONote) -> bool {
    &&& note.note <= 127
    &&& note.duration > 0
    &&& (note.duration == cfg.n1_length * 480 || note.duration == cfg.n2_length * 480)
    &&& note.offset + note.duration <= MAX_TICKS
}

/// A pattern as the sequencer commits it: its notes are well-formed, and
/// the last of them is the first to take their lengths beyond the bars of a
/// pattern.
pub open spec fn complete(cfg: SettingsModel, pattern: PatternModel) -> bool {
    &&& pattern.wf()
    &&& pattern.notes.len() > 0
    &&& forall|i: int| 0 <= i < pattern.notes.len() ==> note_fits(cfg, #[trigger] pattern.notes[i])
    &&& total_duration(pattern.notes) > flush_threshold(cfg)
    &&& total_duration(pattern.notes.drop_last()) <= flush_threshold(cfg)
}

/// State of the sequencer between two notes.
pub struct SequencerModel {
    /// The patterns that are complete.
    pub patterns: Seq<PatternModel>,
    /// The pattern that is being built.
    pub current: PatternModel,
    /// Tick at which the next note starts.
    pub position: nat,
    /// Ticks that the pattern being built spans.
    pub bar_length: nat,
    /// The note length in use, in quarter notes.
    pub note_length: nat,
    /// Place of the next pitch in the range, in walking direction.
    pub cursor: nat,
    /// Whether the range is being walked from its back.
    pub descending: bool,
}

impl SequencerModel {
    /// The state before the first note.
    pub open spec fn initial(cfg: SettingsModel) -> SequencerModel {
        SequencerModel {
            patterns: Seq::empty(),
            current: PatternModel { notes: Seq::empty(), pattern_num: 0, offset: 0 },
            position: 0,
            bar_length: 0,
            note_length: cfg.n1_length,
            cursor: 0,
            descending: false,
        }
    }

    /// As many patterns are complete as the settings ask for.
    pub open spec fn done(self, cfg: SettingsModel) -> bool {
        self.patterns.len() >= cfg.pattern_num
    }

    /// Whether the next note would conflict with a complete pattern.
    pub open spec fn conflict_ahead(self) -> bool {
        any_pattern_conflicts(self.patterns, self.position - self.current.offset)
    }

    /// The note length of the next note: the other one where a conflict lies
    /// ahead, else the one in use.
    pub open spec fn next_note_length(self, cfg: SettingsModel) -> nat {
        if self.conflict_ahead() {
            toggled(cfg, self.note_length)
        } else {
            self.note_length
        }
    }

    /// The next note.
    pub open spec fn next_note(self, cfg: SettingsModel, pitches: Seq<nat>) -> VONote {
        VONote {
            note: midi_note(pitch_at(pitches, self.cursor, self.descending)) as usize,
            offset: self.position as usize,
            duration: (self.next_note_length(cfg) * 480) as usize,
        }
    }

    /// The state after the next note: the note joins the pattern being
    /// built; where that takes the pattern beyond its bars, the pattern is
    /// complete and an empty one begins where it ends. The cursor moves on by
    /// one pitch and turns round at the end of the range.
    pub open spec fn step(self, cfg: SettingsModel, pitches: Seq<nat>) -> SequencerModel {
        let note = self.next_note(cfg, pitches);
        let position = self.position + note.duration as nat;
        let bar_length = self.bar_length + note.duration as nat;
        let grown = PatternModel { notes: self.current.notes.push(note), ..self.current };
        let turn = self.cursor + 1 >= pitches.len();
        let cursor = if turn {
            0
        } else {
            self.cursor + 1 as nat
        };
        let descending = if turn {
            !self.descending
        } else {
            self.descending
        };
        if bar_length > flush_threshold(cfg) {
            SequencerModel {
                patterns: self.patterns.push(grown),
                current: PatternModel {
                    notes: Seq::empty(),
                    pattern_num: self.patterns.len() + 1 as nat,
                    offset: position,
                },
                position,
                bar_length: 0,
                note_length: self.next_note_length(cfg),
                cursor,
                descending,
            }
        } else {
            SequencerModel {
                patterns: self.patterns,
                current: grown,
                position,
                bar_length,
                note_length: self.next_note_length(cfg),
                cursor,
                descending,
            }
        }
    }

    /// `next` is nearer to the end than this state: a pattern more is
    /// complete, or the pattern being built has grown within its bars.
    pub open spec fn advances_to(self, cfg: SettingsModel, next: SequencerModel) -> bool {
        ||| next.patterns.len() == self.patterns.len() + 1
        ||| (next.patterns.len() == self.patterns.len() && self.bar_length < next.bar_length
            <= flush_threshold(cfg))
    }

    /// The state in which sequencing ends: note follows note until the
    /// patterns asked for are complete.
    pub open spec fn run(self, cfg: SettingsModel, pitches: Seq<nat>) -> SequencerModel
        decreases cfg.pattern_num - self.patterns.len(), flush_threshold(cfg) - self.bar_length,
    {
        let next = self.step(cfg, pitches);
        if !self.done(cfg) && self.advances_to(cfg, next) {
            next.run(cfg, pitches)
        } else {
            self
        }
    }

    /// What holds of the sequencer between two notes.
    pub open spec fn inv(self, cfg: SettingsModel, pitches: Seq<nat>) -> bool {
        &&& cfg.n1_length > 0
        &&& cfg.n2_length > 0
        &&& pitches.len() > 0
        &&& self.cursor < pitches.len()
        &&& (self.note_length == cfg.n1_length || self.note_length == cfg.n2_length)
        &&& self.patterns.len() <= cfg.pattern_num
        &&& self.bar_length <= flush_threshold(cfg)
        &&& (self.patterns.len() == cfg.pattern_num ==> self.bar_length == 0)
        &&& self.current.offset + self.bar_length == self.position
        &&& self.position <= MAX_TICKS
        &&& self.position - self.bar_length + reserve(cfg, self.patterns.len()) <= MAX_TICKS
        &&& self.current.pattern_num == self.patterns.len()
        &&& self.current.wf()
        &&& total_duration(self.current.notes) == self.bar_length
        &&& forall|i: int|
            0 <= i < self.current.notes.len() ==> note_fits(cfg, #[trigger] self.current.notes[i])
        &&& forall|i: int|
            0 <= i < self.current.notes.len() ==> (#[trigger] self.current.notes[i]).offset
                <= self.position
        &&& forall|k: int|
            0 <= k < self.patterns.len() ==> complete(cfg, #[trigger] self.patterns[k])
        &&& forall|k: int|
            0 <= k < self.patterns.len() ==> (#[trigger] self.patterns[k]).offset <= self.position
        &&& forall|k: int|
            0 <= k < self.patterns.len() ==> (#[trigger] self.patterns[k]).pattern_num == k
    }
}

/// A note more adds its length to the sum.
pub proof fn lemma_total_duration_push(notes: Seq<VONote>, note: VONote)
    ensures
        total_duration(notes.push(note)) == total_duration(notes) + note.duration,
{
    assert(notes.push(note).drop_last() =~= notes);
}

/// The reserve holds the ticks of one pattern for each pattern that is not
/// complete.
proof fn lemma_reserve(cfg: SettingsModel, committed: nat)
    requires
        committed < cfg.pattern_num,
    ensures
        reserve(cfg, committed) == reserve(cfg, committed + 1) + cfg.pattern_bound(),
        reserve(cfg, committed + 1) >= 0,
        reserve(cfg, 0) == cfg.timeline_bound(),
{
    let bound = cfg.pattern_bound() as int;
    let left = cfg.pattern_num - committed;
    assert(left * bound == (left - 1) * bound + bound) by (nonlinear_arith);
    assert((left - 1) * bound >= 0) by (nonlinear_arith)
        requires
            left >= 1,
            bound >= 0,
    ;
}

/// Valid settings and a range with a pitch in it let sequencing begin.
pub proof fn lemma_initial_inv(cfg: SettingsModel, pitches: Seq<nat>)
    requires
        cfg.valid(),
        pitches.len() > 0,
    ensures
        SequencerModel::initial(cfg).inv(cfg, pitches),
{
    assert(reserve(cfg, 0) == cfg.timeline_bound());
}

/// A note takes the sequencer from one state that is in order to another,
/// and nearer to the end.
pub proof fn lemma_step_inv(state: SequencerModel, cfg: SettingsModel, pitches: Seq<nat>)
    requires
        state.inv(cfg, pitches),
        !state.done(cfg),
    ensures
        state.step(cfg, pitches).inv(cfg, pitches),
        state.advances_to(cfg, state.step(cfg, pitches)),
        note_fits(cfg, state.next_note(cfg, pitches)),
        state.current.admits(state.next_note(cfg, pitches)),
        state.next_note(cfg, pitches).note == midi_note(
            pitch_at(pitches, state.cursor, state.descending),
        ),
        state.next_note(cfg, pitches).offset == state.position,
        state.next_note(cfg, pitches).duration == state.next_note_length(cfg) * 480,
        state.position + state.next_note(cfg, pitches).duration <= MAX_TICKS,
        flush_threshold(cfg) <= MAX_TICKS,
{
    let committed = state.patterns.len();
    lemma_reserve(cfg, committed);
    let note = state.next_note(cfg, pitches);
    let length = state.next_note_length(cfg);
    assert(length == cfg.n1_length || length == cfg.n2_length);
    assert(length * 480 <= cfg.longest_note());
    assert(state.bar_length + length * 480 <= cfg.pattern_bound());
    assert(state.position + length * 480 <= MAX_TICKS);
    assert(note.duration == length * 480);
    assert(note.offset == state.position);
    let next = state.step(cfg, pitches);
    let grown = PatternModel { notes: state.current.notes.push(note), ..state.current };
    lemma_total_duration_push(state.current.notes, note);
    assert(grown.notes.drop_last() =~= state.current.notes);
    assert(grown.wf()) by {
        assert forall|i: int, j: int| 0 <= i <= j < grown.notes.len() implies grown.notes[i].offset
            <= grown.notes[j].offset by {
            if j < state.current.notes.len() {
                assert(state.current.notes[i].offset <= state.current.notes[j].offset);
            } else if i < state.current.notes.len() {
                assert(state.current.notes[i].offset <= state.position);
            }
        }
        assert forall|i: int| 0 <= i < grown.notes.len() implies #[trigger] grown.notes[i].offset
            + grown.notes[i].duration <= usize::MAX by {
            if i < state.current.notes.len() {
                assert(note_fits(cfg, state.current.notes[i]));
            }
        }
    }
    assert forall|i: int| 0 <= i < grown.notes.len() implies note_fits(
        cfg,
        #[trigger] grown.notes[i],
    ) by {
        if i < state.current.notes.len() {
            assert(note_fits(cfg, state.current.notes[i]));
        }
    }
    if state.bar_length + note.duration > flush_threshold(cfg) {
        assert(complete(cfg, grown));
        assert forall|k: int| 0 <= k < next.patterns.len() implies complete(
            cfg,
            #[trigger] next.patterns[k],
        ) by {
            if k < committed {
                assert(complete(cfg, state.patterns[k]));
            }
        }
        assert forall|k: int| 0 <= k < next.patterns.len() implies (#[trigger] next.patterns[k]).offset
            <= next.position by {
            if k < committed {
                assert(state.patterns[k].offset <= state.position);
            }
        }
        assert forall|k: int| 0 <= k < next.patterns.len() implies (
        #[trigger] next.patterns[k]).pattern_num == k by {
            if k < committed {
                assert(state.patterns[k].pattern_num == k);
            }
        }
        if committed + 1 < cfg.pattern_num {
            lemma_reserve(cfg, committed + 1);
        }
    } else {
        assert forall|i: int| 0 <= i < next.current.notes.len() implies (
        #[trigger] next.current.notes[i]).offset <= next.position by {
            if i < state.current.notes.len() {
                assert(state.current.notes[i].offset <= state.position);
            }
        }
        assert forall|k: int| 0 <= k < next.patterns.len() implies (#[trigger] next.patterns[k]).offset
            <= next.position by {
            assert(state.patterns[k].offset <= state.position);
        }
    }
}

/// What a note changes. The note length changes only where the note would
/// conflict with a complete pattern, and then to the other length. The
/// complete patterns stay as they are, and at most one joins them at the end.
pub proof fn lemma_step_effects(state: SequencerModel, cfg: SettingsModel, pitches: Seq<nat>)
    ensures
        !state.conflict_ahead() ==> state.step(cfg, pitches).note_length == state.note_length,
        state.conflict_ahead() ==> state.step(cfg, pitches).note_length == toggled(
            cfg,
            state.note_length,
        ),
        state.step(cfg, pitches).patterns == state.patterns || state.step(
            cfg,
            pitches,
        ).patterns.drop_last() == state.patterns,
{
    let note = state.next_note(cfg, pitches);
    let grown = PatternModel { notes: state.current.notes.push(note), ..state.current };
    assert(state.patterns.push(grown).drop_last() =~= state.patterns);
}

/// Sequencing from a state that is in order ends in one, with exactly the
/// patterns asked for complete.
pub proof fn lemma_run_completes(state: SequencerModel, cfg: SettingsModel, pitches: Seq<nat>)
    requires
        state.inv(cfg, pitches),
    ensures
        state.run(cfg, pitches).inv(cfg, pitches),
        state.run(cfg, pitches).patterns.len() == cfg.pattern_num,
        state.run(cfg, pitches).bar_length == 0,
    decreases cfg.pattern_num - state.patterns.len(), flush_threshold(cfg) - state.bar_length,
{
    if !state.done(cfg) {
        lemma_step_inv(state, cfg, pitches);
        lemma_run_completes(state.step(cfg, pitches), cfg, pitches);
    }
}

/// The sequencer: builds patterns note by note from a pitch range.
#[derive(Debug)]
pub struct Sequencer {
    /// The patterns that are complete.
    pub patterns: Vec<VOPattern>,
    /// The pattern that is being built.
    pub current_pattern: VOPattern,
    /// Tick at which the next note starts.
    pub current_position: usize,
    /// Ticks that the pattern being built spans.
    pub current_bar_length: usize,
    /// The note length in use, in quarter notes.
    pub note_length: usize,
    /// Place of the next pitch in the range, in walking direction.
    pub cursor: usize,
    /// Whether the range is being walked from its back.
    pub descending: bool,
}

impl View for Sequencer {
    type V = SequencerModel;

    open spec fn view(&self) -> SequencerModel {
        SequencerModel {
            patterns: pattern_models(self.patterns@),
            current: self.current_pattern@,
            position: self.current_position as nat,
            bar_length: self.current_bar_length as nat,
            note_length: self.note_length as nat,
            cursor: self.cursor as nat,
            descending: self.descending,
        }
    }
}

impl Sequencer {
    /// The sequencer before the first note.
    pub fn new(composition: &CompositionSettings) -> (sequencer: Self)
        ensures
            sequencer@ == SequencerModel::initial(composition@),
    {
        let sequencer = Sequencer {
            patterns: Vec::new(),
            current_pattern: VOPattern::new(0, 0),
            current_position: 0,
            current_bar_length: 0,
            note_length: composition.n1_length,
            cursor: 0,
            descending: false,
        };
        assert(sequencer@.patterns =~= Seq::empty());
        sequencer
    }

    /// Whether as many patterns are complete as the settings ask for.
    pub fn is_done(&self, composition: &CompositionSettings) -> (done: bool)
        ensures
            done == self@.done(composition@),
    {
        self.patterns.len() >= composition.pattern_num
    }

    /// Makes the next note from the pitch under the cursor: with the other
    /// note length where the note would conflict with a complete pattern,
    /// else with the one in use. The note joins the pattern being built, and
    /// the pattern is complete once it spans more than its bars.
    pub fn step(&mut self, composition: &CompositionSettings, pitches: &Pitches)
        requires
            old(self)@.inv(composition@, frequencies(pitches@)),
            !old(self)@.done(composition@),
        ensures
            final(self)@ == old(self)@.step(composition@, frequencies(pitches@)),
            final(self)@.inv(composition@, frequencies(pitches@)),
    {
        let ghost cfg = composition@;
        let ghost range = frequencies(pitches@);
        let ghost before = self@;
        proof {
            lemma_step_inv(before, cfg, range);
            assert forall|k: int| 0 <= k < self.patterns@.len() implies (
            #[trigger] self.patterns@[k])@.wf() by {
                assert(complete(cfg, before.patterns[k]));
            }
        }
        let pitch = if self.descending {
            pitches[pitches.len() - 1 - self.cursor]
        } else {
            pitches[self.cursor]
        };
        assert(pitch as nat == pitch_at(range, before.cursor, before.descending));
        let offset = self.current_pattern.offset;
        if offset_conflict(self.current_position - offset, self.patterns.as_slice()) {
            if self.note_length == composition.n1_length {
                self.note_length = composition.n2_length;
            } else {
                self.note_length = composition.n1_length;
            }
        }
        assert(self.note_length == before.next_note_length(cfg));
        let note = VONote {
            note: frequency_to_midi_note(pitch),
            offset: self.current_position,
            duration: self.note_length * NoteValue::Quarter.ticks(),
        };
        assert(note == before.next_note(cfg, range));
        self.current_position += note.duration;
        self.current_bar_length += note.duration;
        self.current_pattern.add_note(note);
        if self.current_bar_length > composition.pattern_bars * NoteValue::Whole.ticks() {
            let mut finished = VOPattern::new(self.patterns.len() + 1, self.current_position);
            std::mem::swap(&mut self.current_pattern, &mut finished);
            self.patterns.push(finished);
            self.current_bar_length = 0;
            assert(pattern_models(self.patterns@) =~= before.patterns.push(finished@));
        }
        let range_length = pitches.len();
        if self.cursor + 1 >= range_length {
            self.cursor = 0;
            self.descending = !self.descending;
        } else {
            self.cursor += 1;
        }
    }
}

/// Sequencing under valid settings completes exactly as many patterns as
/// the settings ask for. Each of them holds the notes up to the first that
/// takes their lengths beyond the bars of a pattern, carries its place in
/// the list as its number, and starts within the composition.
pub proof fn lemma_sequencing_completes(cfg: SettingsModel, pitches: Seq<nat>)
    requires
        cfg.valid(),
        pitches.len() > 0,
    ensures
        SequencerModel::initial(cfg).run(cfg, pitches).patterns.len() == cfg.pattern_num,
        forall|k: int|
            #![trigger SequencerModel::initial(cfg).run(cfg, pitches).patterns[k]]
            0 <= k < cfg.pattern_num ==> {
                let pattern = SequencerModel::initial(cfg).run(cfg, pitches).patterns[k];
                &&& complete(cfg, pattern)
                &&& total_duration(pattern.notes) > cfg.pattern_bars * 1920
                &&& total_duration(pattern.notes.drop_last()) <= cfg.pattern_bars * 1920
                &&& pattern.pattern_num == k
                &&& pattern.offset <= SequencerModel::initial(cfg).run(cfg, pitches).position
            },
{
    lemma_initial_inv(cfg, pitches);
    lemma_run_completes(SequencerModel::initial(cfg), cfg, pitches);
    let end = SequencerModel::initial(cfg).run(cfg, pitches);
    assert forall|k: int| 0 <= k < cfg.pattern_num implies complete(
        cfg,
        #[trigger] end.patterns[k],
    ) && end.patterns[k].pattern_num == k && end.patterns[k].offset <= end.position by {}
}

/// An event of a track.
#[derive(Clone, Copy, Debug, PartialEq, Eq, Structural)]
pub enum Event {
    /// Sets the tempo; the three bytes hold it, the highest first.
    SetTempo { high: u8, middle: u8, low: u8 },
    /// What follows belongs to the next track.
    TrackChange,
    /// Starts a note `delta_time` ticks after the event before.
    NoteOn { delta_time: u32, channel: u8, note: u8, velocity: u8 },
    /// Ends the track.
    EndOfTrack,
}

/// Channel of every note.
pub const CHANNEL: u8 = 0;

/// Velocity of every note.
pub const VELOCITY: u8 = 100;

/// The tempo event of a tempo in beats per minute: its lowest three bytes.
pub open spec fn tempo_event(tempo: nat) -> Event {
    Event::SetTempo {
        high: (tempo / 65536 % 256) as u8,
        middle: (tempo / 256 % 256) as u8,
        low: (tempo % 256) as u8,
    }
}

/// The event that starts a note.
pub open spec fn note_on(note: VONote) -> Event {
    Event::NoteOn {
        delta_time: note.duration as u32,
        channel: CHANNEL,
        note: note.note as u8,
        velocity: VELOCITY,
    }
}

/// The events of the notes of a pattern, in order.
pub open spec fn note_block(pattern: PatternModel) -> Seq<Event> {
    Seq::new(pattern.notes.len(), |i: int| note_on(pattern.notes[i]))
}

/// A block of events `times` times over.
pub open spec fn repeated(block: Seq<Event>, times: nat) -> Seq<Event>
    decreases times,
{
    if times == 0 {
        Seq::empty()
    } else {
        repeated(block, (times - 1) as nat) + block
    }
}

/// How often a stride has to be taken to cover a span: the span divided by
/// the stride, rounded up.
pub open spec fn repetitions(span: nat, stride: nat) -> nat {
    if stride == 0 {
        0
    } else {
        (span + stride - 1) as nat / stride
    }
}

/// The events of a pattern in a composition of `total_length` ticks: its
/// notes over and over, as often as the length of the pattern's range has to
/// be taken to cover the ticks from the pattern's start to the end of the
/// composition.
pub open spec fn replay(pattern: PatternModel, total_length: nat) -> Seq<Event> {
    repeated(
        note_block(pattern),
        repetitions((total_length - pattern.offset) as nat, pattern.range_length()),
    )
}

/// The events of the patterns, pattern after pattern.
pub open spec fn replay_all(patterns: Seq<PatternModel>, total_length: nat) -> Seq<Event>
    decreases patterns.len(),
{
    if patterns.len() == 0 {
        Seq::empty()
    } else {
        replay_all(patterns.drop_last(), total_length) + replay(patterns.last(), total_length)
    }
}

/// The events of a composition: the tempo, the change to the track of the
/// notes, the notes of every pattern, and the end of the track.
pub open spec fn rendered(tempo: nat, patterns: Seq<PatternModel>, total_length: nat) -> Seq<
    Event,
> {
    seq![tempo_event(tempo), Event::TrackChange] + replay_all(patterns, total_length)
        + seq![Event::EndOfTrack]
}

/// A pattern that can be rendered in a composition of `total_length` ticks:
/// it is well-formed, starts within the composition, holds MIDI notes that
/// end within the tick range, and its range has a length unless the pattern
/// starts where the composition ends.
pub open spec fn renderable(pattern: PatternModel, total_length: nat) -> bool {
    &&& pattern.wf()
    &&& pattern.offset <= total_length
    &&& pattern.offset < total_length ==> pattern.range_length() > 0
    &&& forall|i: int|
        0 <= i < pattern.notes.len() ==> (#[trigger] pattern.notes[i]).note <= 127
            && pattern.notes[i].offset + pattern.notes[i].duration <= MAX_TICKS
}

/// The event that starts a note.
fn note_event(note: &VONote) -> (event: Event)
    requires
        note.note <= 127,
        note.duration <= MAX_TICKS,
    ensures
        event == note_on(*note),
{
    Event::NoteOn {
        delta_time: note.duration as u32,
        channel: CHANNEL,
        note: note.note as u8,
        velocity: VELOCITY,
    }
}

/// Renders patterns as the events of a composition of `total_length` ticks.
pub fn emit(tempo: usize, patterns: &Vec<VOPattern>, total_length: usize) -> (events: Vec<Event>)
    requires
        total_length <= MAX_TICKS,
        forall|k: int|
            0 <= k < patterns@.len() ==> renderable(
                #[trigger] pattern_models(patterns@)[k],
                total_length as nat,
            ),
    ensures
        events@ == rendered(tempo as nat, pattern_models(patterns@), total_length as nat),
        events@.len() >= 3,
        events@[0] is SetTempo,
        events@[1] is TrackChange,
        events@.last() is EndOfTrack,
        forall|i: int| 2 <= i < events@.len() - 1 ==> (#[trigger] events@[i]) is NoteOn,
{
    let ghost models = pattern_models(patterns@);
    let ghost total = total_length as nat;
    let mut events: Vec<Event> = Vec::new();
    events.push(
        Event::SetTempo {
            high: (tempo / 65536 % 256) as u8,
            middle: (tempo / 256 % 256) as u8,
            low: (tempo % 256) as u8,
        },
    );
    events.push(Event::TrackChange);
    let ghost head = events@;
    assert(head =~= seq![tempo_event(tempo as nat), Event::TrackChange]);
    assert(models.take(0) =~= Seq::empty());
    let mut k: usize = 0;
    while k < patterns.len()
        invariant
            k <= patterns@.len(),
            models == pattern_models(patterns@),
            total == total_length,
            total_length <= MAX_TICKS,
            forall|j: int| 0 <= j < patterns@.len() ==> renderable(#[trigger] models[j], total),
            events@ == head + replay_all(models.take(k as int), total),
        decreases patterns@.len() - k,
    {
        let pattern = &patterns[k];
        let ghost model = models[k as int];
        assert(model == pattern@);
        assert(renderable(model, total));
        let ghost block = note_block(model);
        let ghost done = events@;
        let span = total_length - pattern.offset;
        let stride = pattern.get_range_length();
        let mut pattern_length: usize = 0;
        let ghost mut times: nat = 0;
        while pattern_length < span
            invariant
                model == pattern@,
                renderable(model, total),
                block == note_block(model),
                total_length <= MAX_TICKS,
                span <= total_length,
                stride == model.range_length(),
                span > 0 ==> stride > 0,
                stride <= MAX_TICKS,
                pattern_length == times * stride,
                times > 0 ==> (times - 1) * stride < span,
                events@ == done + repeated(block, times),
            decreases span + stride - pattern_length,
        {
            let ghost round = events@;
            let mut i: usize = 0;
            while i < pattern.notes.len()
                invariant
                    model == pattern@,
                    renderable(model, total),
                    block == note_block(model),
                    i <= pattern.notes@.len(),
                    events@ == round + block.take(i as int),
                decreases pattern.notes@.len() - i,
            {
                let note = &pattern.notes[i];
                assert(model.notes[i as int].note <= 127);
                events.push(note_event(note));
                assert(block.take(i + 1) =~= block.take(i as int).push(block[i as int]));
                i += 1;
            }
            proof {
                assert(block.take(i as int) =~= block);
                assert(repeated(block, times + 1) == repeated(block, times) + block);
                assert((times + 1) * stride == times * stride + stride) by (nonlinear_arith);
                assert(((times + 1) - 1) * stride == times * stride) by (nonlinear_arith);
                times = times + 1;
            }
            pattern_length += stride;
        }
        proof {
            if times == 0 {
                if stride > 0 {
                    lemma_fundamental_div_mod_converse_div(
                        stride - 1,
                        stride as int,
                        0,
                        stride - 1,
                    );
                }
            } else {
                let rest = span + stride - 1 - times * stride;
                assert((times - 1) * stride == times * stride - stride) by (nonlinear_arith);
                lemma_fundamental_div_mod_converse_div(
                    span + stride - 1,
                    stride as int,
                    times as int,
                    rest,
                );
            }
            assert(times == repetitions(span as nat, stride as nat));
            assert(models.take(k + 1).drop_last() =~= models.take(k as int));
            assert(models.take(k + 1).last() == model);
        }
        k += 1;
    }
    events.push(Event::EndOfTrack);
    proof {
        assert(models.take(k as int) =~= models);
        lemma_replay_all_notes(models, total);
    }
    events
}

/// A block of note events, whatever times over, holds note events only.
proof fn lemma_repeated_notes(pattern: PatternModel, times: nat)
    ensures
        forall|i: int|
            0 <= i < repeated(note_block(pattern), times).len() ==> (#[trigger] repeated(
                note_block(pattern),
                times,
            )[i]) is NoteOn,
    decreases times,
{
    if times > 0 {
        lemma_repeated_notes(pattern, (times - 1) as nat);
    }
}

/// The events of patterns are note events only.
pub proof fn lemma_replay_all_notes(patterns: Seq<PatternModel>, total_length: nat)
    ensures
        forall|i: int|
            0 <= i < replay_all(patterns, total_length).len() ==> (#[trigger] replay_all(
                patterns,
                total_length,
            )[i]) is NoteOn,
    decreases patterns.len(),
{
    if patterns.len() > 0 {
        lemma_replay_all_notes(patterns.drop_last(), total_length);
        let last = patterns.last();
        lemma_repeated_notes(
            last,
            repetitions((total_length - last.offset) as nat, last.range_length()),
        );
    }
}

/// The events of a composition are one tempo event, one change of track,
/// note events, and one end of track, in this order.
pub proof fn lemma_rendered_shape(tempo: nat, patterns: Seq<PatternModel>, total_length: nat)
    ensures
        rendered(tempo, patterns, total_length).len() == replay_all(patterns, total_length).len()
            + 3,
        rendered(tempo, patterns, total_length)[0] is SetTempo,
        rendered(tempo, patterns, total_length)[1] is TrackChange,
        rendered(tempo, patterns, total_length).last() is EndOfTrack,
        forall|i: int|
            2 <= i < rendered(tempo, patterns, total_length).len() - 1 ==> (#[trigger] rendered(
                tempo,
                patterns,
                total_length,
            )[i]) is NoteOn,
{
    lemma_replay_all_notes(patterns, total_length);
    let notes = replay_all(patterns, total_length);
    assert forall|i: int| 2 <= i < rendered(tempo, patterns, total_length).len() - 1 implies (
    #[trigger] rendered(tempo, patterns, total_length)[i]) is NoteOn by {
        assert(rendered(tempo, patterns, total_length)[i] == notes[i - 2]);
    }
}

/// The events that sequencing the pitches under the settings comes to.
pub open spec fn composed_events(cfg: SettingsModel, pitches: Seq<nat>) -> Seq<Event> {
    let end = SequencerModel::initial(cfg).run(cfg, pitches);
    rendered(cfg.tempo, end.patterns, end.position)
}

/// Composes the events of a melody from a pitch range: sequences the
/// patterns that the settings ask for and renders them.
pub fn compose(composition: &CompositionSettings, pitches: Pitches) -> (composed: Result<
    Vec<Event>,
    CompositionError,
>)
    ensures
        composed is Ok <==> composition@.valid() && pitches@.len() > 0,
        composed matches Ok(events) ==> events@ == composed_events(
            composition@,
            frequencies(pitches@),
        ),
        composed matches Ok(events) ==> {
            &&& events@.len() >= 3
            &&& events@[0] is SetTempo
            &&& events@[1] is TrackChange
            &&& events@.last() is EndOfTrack
            &&& forall|i: int| 2 <= i < events@.len() - 1 ==> (#[trigger] events@[i]) is NoteOn
        },
        composed matches Err(error) ==> if composition@.valid() {
            error == CompositionError::EmptyPitchRange
        } else {
            composition@.rejects(error)
        },
{
    match composition.validate() {
        Err(error) => {
            return Err(error);
        },
        Ok(()) => {},
    }
    if pitches.len() == 0 {
        return Err(CompositionError::EmptyPitchRange);
    }
    let ghost cfg = composition@;
    let ghost range = frequencies(pitches@);
    let mut sequencer = Sequencer::new(composition);
    proof {
        lemma_initial_inv(cfg, range);
    }
    while !sequencer.is_done(composition)
        invariant
            cfg == composition@,
            range == frequencies(pitches@),
            sequencer@.inv(cfg, range),
            sequencer@.run(cfg, range) == SequencerModel::initial(cfg).run(cfg, range),
        decreases
                cfg.pattern_num - sequencer@.patterns.len(),
                flush_threshold(cfg) - sequencer@.bar_length,
    {
        proof {
            lemma_step_inv(sequencer@, cfg, range);
        }
        sequencer.step(composition, &pitches);
    }
    proof {
        let end = sequencer@;
        assert forall|k: int| 0 <= k < sequencer.patterns@.len() implies renderable(
            #[trigger] pattern_models(sequencer.patterns@)[k],
            end.position,
        ) by {
            lemma_complete_renderable(cfg, end.patterns[k], end.position);
        }
    }
    Ok(emit(composition.tempo, &sequencer.patterns, sequencer.current_position))
}

/// A complete pattern that starts within a composition can be rendered in
/// it.
proof fn lemma_complete_renderable(cfg: SettingsModel, pattern: PatternModel, total_length: nat)
    requires
        complete(cfg, pattern),
        pattern.offset <= total_length,
    ensures
        renderable(pattern, total_length),
{
    let last = pattern.notes.last();
    assert(note_fits(cfg, pattern.notes[pattern.notes.len() - 1]));
    assert(pattern.notes[0].offset <= pattern.notes[pattern.notes.len() - 1].offset);
    assert forall|i: int| 0 <= i < pattern.notes.len() implies (#[trigger] pattern.notes[i]).note
        <= 127 && pattern.notes[i].offset + pattern.notes[i].duration <= MAX_TICKS by {
        assert(note_fits(cfg, pattern.notes[i]));
    }
}

} // verus!
