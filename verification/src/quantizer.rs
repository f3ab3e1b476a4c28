//! The quantizer: maps a frequency to the nearest MIDI note by semitone
//! steps from a reference pitch, every step rounded down to a whole
//! millihertz.

use vstd::prelude::*;

verus! {

/// Frequency units in one millihertz.
pub const UNITS_PER_MILLIHERTZ: u64 = 16;

/// Reference pitch of the quantizer in millihertz: the C of octave 5.
pub const ANCHOR_MILLIHERTZ: u64 = 523_251;

/// MIDI note number of the quantizer's reference pitch.
pub const ANCHOR_NOTE: usize = 72;

/// Highest MIDI note number.
pub const HIGHEST_NOTE: usize = 127;

/// Most semitone steps taken below the reference pitch: one more than leads
/// to note 0.
pub const DESCENT_LIMIT: usize = 73;

/// Most semitone steps taken above the reference pitch: one more than leads
/// to the highest note.
pub const ASCENT_LIMIT: usize = 56;

/// The reference one semitone below `reference`, both in millihertz, rounded
/// down to a whole millihertz. The semitone ratio is the fraction of
/// 105946309436 over 100000000000.
pub open spec fn semitone_below(reference: nat) -> nat {
    reference * 100_000_000_000 / 105_946_309_436
}

/// The reference one semitone above `reference`, both in millihertz, rounded
/// down to a whole millihertz.
pub open spec fn semitone_above(reference: nat) -> nat {
    reference * 105_946_309_436 / 100_000_000_000
}

/// The reference reached from `reference` by `steps` semitone steps down.
pub open spec fn descend(reference: nat, steps: nat) -> nat
    decreases steps,
{
    if steps == 0 {
        reference
    } else {
        semitone_below(descend(reference, (steps - 1) as nat))
    }
}

/// The reference reached from `reference` by `steps` semitone steps up.
pub open spec fn ascend(reference: nat, steps: nat) -> nat
    decreases steps,
{
    if steps == 0 {
        reference
    } else {
        semitone_above(ascend(reference, (steps - 1) as nat))
    }
}

/// Number of semitone steps down from `reference` that are taken while
/// `frequency` lies below the reference, `budget` at most.
pub open spec fn descent_steps(frequency: nat, reference: nat, budget: nat) -> nat
    decreases budget,
{
    if budget > 0 && frequency < UNITS_PER_MILLIHERTZ * reference {
        1 + descent_steps(frequency, semitone_below(reference), (budget - 1) as nat)
    } else {
        0
    }
}

/// Number of semitone steps up from `reference` that are taken while
/// `frequency` lies above the reference, `budget` at most.
pub open spec fn ascent_steps(frequency: nat, reference: nat, budget: nat) -> nat
    decreases budget,
{
    if budget > 0 && frequency > UNITS_PER_MILLIHERTZ * reference {
        1 + ascent_steps(frequency, semitone_above(reference), (budget - 1) as nat)
    } else {
        0
    }
}

/// Absolute difference of two numbers.
pub open spec fn distance(a: int, b: int) -> int {
    if a >= b {
        a - b
    } else {
        b - a
    }
}

/// Outcome of quantizing a frequency.
#[derive(Clone, Copy, Debug, PartialEq, Eq, Structural)]
pub enum Quantized {
    /// The nearest note lies below note 0.
    BelowRange,
    /// The nearest note.
    InRange { note: usize },
    /// The nearest note lies above the highest note.
    AboveRange,
}

impl Quantized {
    /// The note number, pinned to the nearest end of the range where the
    /// frequency lies outside of it.
    pub open spec fn clamped(self) -> nat {
        match self {
            Quantized::BelowRange => 0,
            Quantized::InRange { note } => note as nat,
            Quantized::AboveRange => HIGHEST_NOTE as nat,
        }
    }

    /// The note number, pinned to the nearest end of the range where the
    /// frequency lies outside of it.
    pub fn note(self) -> (note: usize)
        ensures
            note == self.clamped(),
    {
        match self {
            Quantized::BelowRange => 0,
            Quantized::InRange { note } => note,
            Quantized::AboveRange => HIGHEST_NOTE,
        }
    }
}

/// The note of the bracket that is closer to `frequency`, where `upper_note`
/// is the note of the upper bracket and the lower bracket has the note
/// before it. A frequency that meets the upper bracket has its note; one
/// that is equally close to both has the note of the lower bracket.
pub open spec fn bracket_note(frequency: nat, lower: nat, upper: nat, upper_note: int) -> int {
    if frequency < UNITS_PER_MILLIHERTZ * upper && distance(
        frequency as int,
        UNITS_PER_MILLIHERTZ * lower,
    ) <= distance(frequency as int, UNITS_PER_MILLIHERTZ * upper) {
        upper_note - 1
    } else {
        upper_note
    }
}

/// A note number as an outcome: itself within the range of MIDI notes, else
/// the side on which it leaves the range.
pub open spec fn ranged(note: int) -> Quantized {
    if note < 0 {
        Quantized::BelowRange
    } else if note > HIGHEST_NOTE {
        Quantized::AboveRange
    } else {
        Quantized::InRange { note: note as usize }
    }
}

/// The note that semitone stepping assigns to `frequency`.
///
/// Stepping starts at the reference pitch and goes down while the frequency
/// lies below the current reference, then up while it lies above. The
/// reference reached is the upper bracket. The lower bracket is the last
/// reference of the way down or, where no step down was taken, the reference
/// one semitone below the upper bracket. The result is the note of the closer
/// bracket. Stepping ends early, with the side as the outcome, once the
/// steps taken lead out of the range of MIDI notes.
pub open spec fn quantization(frequency: nat) -> Quantized {
    let down = descent_steps(frequency, ANCHOR_MILLIHERTZ as nat, DESCENT_LIMIT as nat);
    let floor = descend(ANCHOR_MILLIHERTZ as nat, down);
    if frequency < UNITS_PER_MILLIHERTZ * floor {
        Quantized::BelowRange
    } else {
        let up = ascent_steps(frequency, floor, down + ASCENT_LIMIT as nat);
        let upper = ascend(floor, up);
        if frequency > UNITS_PER_MILLIHERTZ * upper {
            Quantized::AboveRange
        } else {
            let lower = if down > 0 {
                floor
            } else {
                semitone_below(upper)
            };
            ranged(bracket_note(frequency, lower, upper, ANCHOR_NOTE - down + up))
        }
    }
}

/// The reference of a note in millihertz: the reference reached from the
/// reference pitch by the semitone steps that lie between the two notes.
pub open spec fn note_reference(note: int) -> nat {
    if note <= ANCHOR_NOTE {
        descend(ANCHOR_MILLIHERTZ as nat, (ANCHOR_NOTE - note) as nat)
    } else {
        ascend(ANCHOR_MILLIHERTZ as nat, (note - ANCHOR_NOTE) as nat)
    }
}

/// The MIDI note of `frequency`: the note that semitone stepping assigns to
/// it, pinned to the range of MIDI notes.
pub open spec fn midi_note(frequency: nat) -> nat {
    quantization(frequency).clamped()
}

fn step_below(reference: u64) -> (below: u64)
    ensures
        below == semitone_below(reference as nat),
        below <= reference,
{
    let wide = reference as u128 * 100_000_000_000 / 105_946_309_436;
    wide as u64
}

fn step_above(reference: u64) -> (above: u64)
    requires
        reference < 0x1000_0000_0000_0000,
    ensures
        above == semitone_above(reference as nat),
{
    let wide = reference as u128 * 105_946_309_436 / 100_000_000_000;
    wide as u64
}

/// Quantizes a frequency to the note that semitone stepping assigns to it,
/// and tells whether that note lies within the range of MIDI notes.
pub fn quantize(frequency: u64) -> (q: Quantized)
    ensures
        q == quantization(frequency as nat),
        q matches Quantized::InRange { note } ==> note <= HIGHEST_NOTE,
{
    let mut reference: u64 = ANCHOR_MILLIHERTZ;
    let mut down: usize = 0;
    while down < DESCENT_LIMIT && frequency < UNITS_PER_MILLIHERTZ * reference
        invariant
            down <= DESCENT_LIMIT,
            reference <= ANCHOR_MILLIHERTZ,
            reference == descend(ANCHOR_MILLIHERTZ as nat, down as nat),
            descent_steps(frequency as nat, ANCHOR_MILLIHERTZ as nat, DESCENT_LIMIT as nat) == down
                + descent_steps(frequency as nat, reference as nat, (DESCENT_LIMIT - down) as nat),
        decreases DESCENT_LIMIT - down,
    {
        reference = step_below(reference);
        down += 1;
    }
    if frequency < UNITS_PER_MILLIHERTZ * reference {
        return Quantized::BelowRange;
    }
    let floor = reference;
    let budget = down + ASCENT_LIMIT;
    let mut up: usize = 0;
    while up < budget && frequency as u128 > UNITS_PER_MILLIHERTZ as u128 * reference as u128
        invariant
            up <= budget,
            budget == down + ASCENT_LIMIT,
            down <= DESCENT_LIMIT,
            reference == ascend(floor as nat, up as nat),
            ascent_steps(frequency as nat, floor as nat, budget as nat) == up + ascent_steps(
                frequency as nat,
                reference as nat,
                (budget - up) as nat,
            ),
        decreases budget - up,
    {
        reference = step_above(reference);
        up += 1;
    }
    let wide_frequency = frequency as u128;
    let wide_upper = UNITS_PER_MILLIHERTZ as u128 * reference as u128;
    if wide_frequency > wide_upper {
        return Quantized::AboveRange;
    }
    let lower = if down > 0 {
        floor
    } else {
        step_below(reference)
    };
    let wide_lower = UNITS_PER_MILLIHERTZ as u128 * lower as u128;
    let to_lower = if wide_frequency >= wide_lower {
        wide_frequency - wide_lower
    } else {
        wide_lower - wide_frequency
    };
    let nearer_lower = wide_frequency < wide_upper && to_lower <= wide_upper - wide_frequency;
    // The note is ANCHOR_NOTE - down + up, less one for the lower bracket.
    let raised = ANCHOR_NOTE + up;
    let lowered = if nearer_lower {
        down + 1
    } else {
        down
    };
    if raised < lowered {
        Quantized::BelowRange
    } else if raised - lowered > HIGHEST_NOTE {
        Quantized::AboveRange
    } else {
        Quantized::InRange { note: raised - lowered }
    }
}

/// Fewer steps down are taken for a higher frequency.
proof fn lemma_descent_antitone(low: nat, high: nat, reference: nat, budget: nat)
    requires
        low <= high,
    ensures
        descent_steps(high, reference, budget) <= descent_steps(low, reference, budget),
    decreases budget,
{
    if budget > 0 && high < UNITS_PER_MILLIHERTZ * reference {
        lemma_descent_antitone(low, high, semitone_below(reference), (budget - 1) as nat);
    }
}

/// More steps up are taken for a higher frequency.
proof fn lemma_ascent_monotone(low: nat, high: nat, reference: nat, budget: nat)
    requires
        low <= high,
    ensures
        ascent_steps(low, reference, budget) <= ascent_steps(high, reference, budget),
    decreases budget,
{
    if budget > 0 && low > UNITS_PER_MILLIHERTZ * reference {
        lemma_ascent_monotone(low, high, semitone_above(reference), (budget - 1) as nat);
    }
}

/// Stepping down first and then `steps` times is stepping down `steps + 1`
/// times.
proof fn lemma_descend_shift(reference: nat, steps: nat)
    ensures
        descend(semitone_below(reference), steps) == descend(reference, steps + 1),
    decreases steps,
{
    if steps > 0 {
        lemma_descend_shift(reference, (steps - 1) as nat);
        assert(descend(reference, steps + 1) == semitone_below(descend(reference, steps)));
    } else {
        assert(descend(reference, 1) == semitone_below(descend(reference, 0)));
    }
}

/// Stepping up first and then `steps` times is stepping up `steps + 1` times.
proof fn lemma_ascend_shift(reference: nat, steps: nat)
    ensures
        ascend(semitone_above(reference), steps) == ascend(reference, steps + 1),
    decreases steps,
{
    if steps > 0 {
        lemma_ascend_shift(reference, (steps - 1) as nat);
        assert(ascend(reference, steps + 1) == semitone_above(ascend(reference, steps)));
    } else {
        assert(ascend(reference, 1) == semitone_above(ascend(reference, 0)));
    }
}

/// The steps down end at the first reference that is not above the
/// frequency, or with the budget.
proof fn lemma_descent_bracket(frequency: nat, reference: nat, budget: nat)
    ensures
        descent_steps(frequency, reference, budget) <= budget,
        descent_steps(frequency, reference, budget) > 0 ==> frequency < UNITS_PER_MILLIHERTZ
            * descend(reference, (descent_steps(frequency, reference, budget) - 1) as nat),
        descent_steps(frequency, reference, budget) < budget ==> frequency
            >= UNITS_PER_MILLIHERTZ * descend(
            reference,
            descent_steps(frequency, reference, budget),
        ),
    decreases budget,
{
    if budget > 0 && frequency < UNITS_PER_MILLIHERTZ * reference {
        let next = semitone_below(reference);
        let rest = descent_steps(frequency, next, (budget - 1) as nat);
        lemma_descent_bracket(frequency, next, (budget - 1) as nat);
        lemma_descend_shift(reference, rest);
        if rest > 0 {
            lemma_descend_shift(reference, (rest - 1) as nat);
        }
    }
}

/// The steps up end at the first reference that is not below the frequency,
/// or with the budget.
proof fn lemma_ascent_bracket(frequency: nat, reference: nat, budget: nat)
    ensures
        ascent_steps(frequency, reference, budget) <= budget,
        ascent_steps(frequency, reference, budget) > 0 ==> frequency > UNITS_PER_MILLIHERTZ
            * ascend(reference, (ascent_steps(frequency, reference, budget) - 1) as nat),
        ascent_steps(frequency, reference, budget) < budget ==> frequency <= UNITS_PER_MILLIHERTZ
            * ascend(reference, ascent_steps(frequency, reference, budget)),
    decreases budget,
{
    if budget > 0 && frequency > UNITS_PER_MILLIHERTZ * reference {
        let next = semitone_above(reference);
        let rest = ascent_steps(frequency, next, (budget - 1) as nat);
        lemma_ascent_bracket(frequency, next, (budget - 1) as nat);
        lemma_ascend_shift(reference, rest);
        if rest > 0 {
            lemma_ascend_shift(reference, (rest - 1) as nat);
        }
    }
}

/// The references of the way down never rise.
proof fn lemma_descend_falls(reference: nat, fewer: nat, more: nat)
    requires
        fewer <= more,
    ensures
        descend(reference, more) <= descend(reference, fewer),
    decreases more,
{
    if fewer < more {
        lemma_descend_falls(reference, fewer, (more - 1) as nat);
    }
}

/// The references of the way down to note 0, computed one by one: none is
/// below 8167 millihertz.
proof fn lemma_descent_references(steps: nat)
    requires
        steps <= 72,
    ensures
        descend(ANCHOR_MILLIHERTZ as nat, steps) >= 8167,
{
    assert(descend(523251, 0) == 523251);
    assert(descend(523251, 1) == 493883);
    assert(descend(523251, 2) == 466163);
    assert(descend(523251, 3) == 439999);
    assert(descend(523251, 4) == 415303);
    assert(descend(523251, 5) == 391993);
    assert(descend(523251, 6) == 369992);
    assert(descend(523251, 7) == 349225);
    assert(descend(523251, 8) == 329624);
    assert(descend(523251, 9) == 311123);
    assert(descend(523251, 10) == 293661);
    assert(descend(523251, 11) == 277179);
    assert(descend(523251, 12) == 261622);
    assert(descend(523251, 13) == 246938);
    assert(descend(523251, 14) == 233078);
    assert(descend(523251, 15) == 219996);
    assert(descend(523251, 16) == 207648);
    assert(descend(523251, 17) == 195993);
    assert(descend(523251, 18) == 184992);
    assert(descend(523251, 19) == 174609);
    assert(descend(523251, 20) == 164808);
    assert(descend(523251, 21) == 155558);
    assert(descend(523251, 22) == 146827);
    assert(descend(523251, 23) == 138586);
    assert(descend(523251, 24) == 130807);
    assert(descend(523251, 25) == 123465);
    assert(descend(523251, 26) == 116535);
    assert(descend(523251, 27) == 109994);
    assert(descend(523251, 28) == 103820);
    assert(descend(523251, 29) == 97993);
    assert(descend(523251, 30) == 92493);
    assert(descend(523251, 31) == 87301);
    assert(descend(523251, 32) == 82401);
    assert(descend(523251, 33) == 77776);
    assert(descend(523251, 34) == 73410);
    assert(descend(523251, 35) == 69289);
    assert(descend(523251, 36) == 65400);
    assert(descend(523251, 37) == 61729);
    assert(descend(523251, 38) == 58264);
    assert(descend(523251, 39) == 54993);
    assert(descend(523251, 40) == 51906);
    assert(descend(523251, 41) == 48992);
    assert(descend(523251, 42) == 46242);
    assert(descend(523251, 43) == 43646);
    assert(descend(523251, 44) == 41196);
    assert(descend(523251, 45) == 38883);
    assert(descend(523251, 46) == 36700);
    assert(descend(523251, 47) == 34640);
    assert(descend(523251, 48) == 32695);
    assert(descend(523251, 49) == 30859);
    assert(descend(523251, 50) == 29127);
    assert(descend(523251, 51) == 27492);
    assert(descend(523251, 52) == 25948);
    assert(descend(523251, 53) == 24491);
    assert(descend(523251, 54) == 23116);
    assert(descend(523251, 55) == 21818);
    assert(descend(523251, 56) == 20593);
    assert(descend(523251, 57) == 19437);
    assert(descend(523251, 58) == 18346);
    assert(descend(523251, 59) == 17316);
    assert(descend(523251, 60) == 16344);
    assert(descend(523251, 61) == 15426);
    assert(descend(523251, 62) == 14560);
    assert(descend(523251, 63) == 13742);
    assert(descend(523251, 64) == 12970);
    assert(descend(523251, 65) == 12242);
    assert(descend(523251, 66) == 11554);
    assert(descend(523251, 67) == 10905);
    assert(descend(523251, 68) == 10292);
    assert(descend(523251, 69) == 9714);
    assert(descend(523251, 70) == 9168);
    assert(descend(523251, 71) == 8653);
    assert(descend(523251, 72) == 8167);

    lemma_descend_falls(523251, steps, 72);
}

/// A frequency below the reference pitch takes at most two steps up after
/// its steps down, and has the note of the last reference of its way down
/// or the note above.
proof fn lemma_descended_note(frequency: nat)
    requires
        descent_steps(frequency, ANCHOR_MILLIHERTZ as nat, DESCENT_LIMIT as nat) > 0,
        frequency >= UNITS_PER_MILLIHERTZ * descend(
            ANCHOR_MILLIHERTZ as nat,
            descent_steps(frequency, ANCHOR_MILLIHERTZ as nat, DESCENT_LIMIT as nat),
        ),
    ensures
        ({
            let down = descent_steps(frequency, ANCHOR_MILLIHERTZ as nat, DESCENT_LIMIT as nat);
            quantization(frequency) == ranged(ANCHOR_NOTE - down) || quantization(frequency)
                == ranged(ANCHOR_NOTE - down + 1)
        }),
{
    let down = descent_steps(frequency, ANCHOR_MILLIHERTZ as nat, DESCENT_LIMIT as nat);
    lemma_descent_bracket(frequency, ANCHOR_MILLIHERTZ as nat, DESCENT_LIMIT as nat);
    let before = descend(ANCHOR_MILLIHERTZ as nat, (down - 1) as nat);
    lemma_descent_references((down - 1) as nat);
    let floor = descend(ANCHOR_MILLIHERTZ as nat, down);
    assert(floor == semitone_below(before));
    let once = semitone_above(floor);
    let twice = semitone_above(once);
    assert(twice >= before);
    assert(2 * before <= floor + twice);
    let budget = down + ASCENT_LIMIT as nat;
    let up = ascent_steps(frequency, floor, budget);
    reveal_with_fuel(ascent_steps, 3);
    reveal_with_fuel(ascend, 3);
    if frequency <= UNITS_PER_MILLIHERTZ * floor {
        assert(up == 0);
        assert(ascend(floor, up) == floor);
    } else if frequency <= UNITS_PER_MILLIHERTZ * once {
        assert(up == 1);
        assert(ascend(floor, up) == once);
    } else {
        assert(up == 2);
        assert(ascend(floor, up) == twice);
        assert(bracket_note(frequency, floor, twice, ANCHOR_NOTE - down + 2) == ANCHOR_NOTE - down
            + 1);
    }
}

/// A frequency that is not below the reference pitch has the note of the
/// reference pitch at least.
proof fn lemma_anchored_note(frequency: nat)
    requires
        descent_steps(frequency, ANCHOR_MILLIHERTZ as nat, DESCENT_LIMIT as nat) == 0,
    ensures
        midi_note(frequency) >= ANCHOR_NOTE,
{
    lemma_descent_bracket(frequency, ANCHOR_MILLIHERTZ as nat, DESCENT_LIMIT as nat);
    lemma_ascent_bracket(frequency, ANCHOR_MILLIHERTZ as nat, ASCENT_LIMIT as nat);
}

/// Of two frequencies that take the same steps down, the higher has the
/// higher or the same note.
proof fn lemma_same_descent_monotonic(low: nat, high: nat)
    requires
        low <= high,
        descent_steps(low, ANCHOR_MILLIHERTZ as nat, DESCENT_LIMIT as nat) == descent_steps(
            high,
            ANCHOR_MILLIHERTZ as nat,
            DESCENT_LIMIT as nat,
        ),
        low >= UNITS_PER_MILLIHERTZ * descend(
            ANCHOR_MILLIHERTZ as nat,
            descent_steps(low, ANCHOR_MILLIHERTZ as nat, DESCENT_LIMIT as nat),
        ),
    ensures
        midi_note(low) <= midi_note(high),
{
    let down = descent_steps(low, ANCHOR_MILLIHERTZ as nat, DESCENT_LIMIT as nat);
    let floor = descend(ANCHOR_MILLIHERTZ as nat, down);
    let budget = down + ASCENT_LIMIT as nat;
    let low_up = ascent_steps(low, floor, budget);
    let high_up = ascent_steps(high, floor, budget);
    lemma_ascent_monotone(low, high, floor, budget);
    lemma_ascent_bracket(low, floor, budget);
    lemma_ascent_bracket(high, floor, budget);
    let low_upper = ascend(floor, low_up);
    let high_upper = ascend(floor, high_up);
    if high > UNITS_PER_MILLIHERTZ * high_upper {
    } else if low > UNITS_PER_MILLIHERTZ * low_upper {
        assert(low_up == budget);
    } else if low_up < high_up {
    } else if low_up == 0 {
    } else {
        let previous = ascend(floor, (low_up - 1) as nat);
        assert(low_upper == semitone_above(previous));
        assert(semitone_below(low_upper) <= previous);
    }
}

/// A higher frequency never has a lower note.
pub proof fn lemma_midi_note_monotonic(low: nat, high: nat)
    requires
        low <= high,
    ensures
        midi_note(low) <= midi_note(high),
{
    let low_down = descent_steps(low, ANCHOR_MILLIHERTZ as nat, DESCENT_LIMIT as nat);
    let high_down = descent_steps(high, ANCHOR_MILLIHERTZ as nat, DESCENT_LIMIT as nat);
    lemma_descent_antitone(low, high, ANCHOR_MILLIHERTZ as nat, DESCENT_LIMIT as nat);
    lemma_descent_bracket(low, ANCHOR_MILLIHERTZ as nat, DESCENT_LIMIT as nat);
    lemma_descent_bracket(high, ANCHOR_MILLIHERTZ as nat, DESCENT_LIMIT as nat);
    if low < UNITS_PER_MILLIHERTZ * descend(ANCHOR_MILLIHERTZ as nat, low_down) {
    } else if low_down == high_down {
        lemma_same_descent_monotonic(low, high);
    } else {
        lemma_descended_note(low);
        if high_down == 0 {
            lemma_anchored_note(high);
        } else {
            lemma_descended_note(high);
        }
    }
}

/// The references of the way up never fall.
proof fn lemma_ascend_rises(reference: nat, fewer: nat, more: nat)
    requires
        fewer <= more,
    ensures
        ascend(reference, fewer) <= ascend(reference, more),
    decreases more,
{
    if fewer < more {
        lemma_ascend_rises(reference, fewer, (more - 1) as nat);
    }
}

/// A frequency lies between the references of the two notes next to its
/// own: the note of a frequency is less than a semitone off.
pub proof fn lemma_note_between_neighbours(frequency: nat)
    requires
        quantization(frequency) is InRange,
    ensures
        UNITS_PER_MILLIHERTZ * note_reference(quantization(frequency)->note - 1) <= frequency,
        frequency <= UNITS_PER_MILLIHERTZ * note_reference(quantization(frequency)->note + 1),
{
    let anchor = ANCHOR_MILLIHERTZ as nat;
    let down = descent_steps(frequency, anchor, DESCENT_LIMIT as nat);
    let note = quantization(frequency)->note as int;
    lemma_descent_bracket(frequency, anchor, DESCENT_LIMIT as nat);
    assert(ascend(anchor, 1) == semitone_above(ascend(anchor, 0)));
    assert(descend(anchor, 1) == semitone_below(descend(anchor, 0)));
    if down > 0 {
        lemma_descended_note(frequency);
        let floor = descend(anchor, down);
        assert(descend(anchor, down + 1) == semitone_below(floor));
        if note == ANCHOR_NOTE - down {
        } else {
            assert(note == ANCHOR_NOTE - down + 1);
            if down >= 2 {
                lemma_descend_falls(anchor, (down - 2) as nat, (down - 1) as nat);
            }
        }
    } else {
        let up = ascent_steps(frequency, anchor, ASCENT_LIMIT as nat);
        lemma_ascent_bracket(frequency, anchor, ASCENT_LIMIT as nat);
        let upper = ascend(anchor, up);
        assert(ascend(anchor, up + 1) == semitone_above(upper));
        if up == 0 {
        } else {
            let previous = ascend(anchor, (up - 1) as nat);
            assert(upper == semitone_above(previous));
            if up >= 2 {
                lemma_ascend_rises(anchor, (up - 2) as nat, (up - 1) as nat);
            }
        }
    }
}

/// The reference pitch itself has the note that it is the reference of.
pub proof fn lemma_anchor_note()
    ensures
        midi_note((UNITS_PER_MILLIHERTZ * ANCHOR_MILLIHERTZ) as nat) == ANCHOR_NOTE,
{
}

} // verus!
