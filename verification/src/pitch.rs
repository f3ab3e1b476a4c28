//! Pitches as fixed-point frequencies: the equal-tempered reference table,
//! note names and the scale walk over an octave range.
//!
//! A frequency is a `u64` count of sixteenths of a millihertz. In this unit
//! the twelve reference pitches and their octave transpositions down to
//! octave 0 are whole numbers.

use vstd::prelude::*;
use vstd::arithmetic::power2::{pow2, lemma_pow2_unfold, lemma_pow2_strictly_increases, lemma2_to64, lemma2_to64_rest};
use vstd::arithmetic::div_mod::{
    lemma_div_plus_one, lemma_fundamental_div_mod_converse_div,
    lemma_fundamental_div_mod_converse_mod, lemma_mod_add_multiples_vanish,
};
use vstd::string::StrSliceExecFns;
use vstd::string::StringSliceAdditionalSpecFns;
use crate::quantizer::{midi_note, quantization, quantize, Quantized, HIGHEST_NOTE};
use crate::CompositionSettings;

verus! {

/// The frequencies of a pitch range, in walking order.
pub type Pitches = Vec<u64>;

/// Highest octave of a pitch: the frequencies of every octave up to it fit
/// the 64 bits of a frequency.
pub const MAX_OCTAVE: usize = 45;

/// The seven natural notes.
#[derive(Clone, Copy, Debug, PartialEq, Eq, Structural)]
pub enum Letter {
    C,
    D,
    E,
    F,
    G,
    A,
    B,
}

/// The suffix of a note name.
#[derive(Clone, Copy, Debug, PartialEq, Eq, Structural)]
pub enum Accidental {
    Natural,
    Flat,
    Sharp,
}

/// A note name: a natural note, lowered or raised by a semitone where it
/// carries a flat or a sharp.
#[derive(Clone, Copy, Debug, PartialEq, Eq, Structural)]
pub struct NoteName {
    pub letter: Letter,
    pub accidental: Accidental,
}

impl Letter {
    /// Place of the natural note among the twelve reference pitches.
    pub open spec fn natural_index(self) -> nat {
        match self {
            Letter::C => 0,
            Letter::D => 2,
            Letter::E => 4,
            Letter::F => 5,
            Letter::G => 7,
            Letter::A => 9,
            Letter::B => 11,
        }
    }
}

impl NoteName {
    /// Place of the note among the twelve reference pitches: that of its
    /// natural note, moved down by a flat and up by a sharp, from the first
    /// place round to the last and from the last round to the first.
    pub open spec fn table_index(self) -> nat {
        match self.accidental {
            Accidental::Natural => self.letter.natural_index(),
            Accidental::Flat => (self.letter.natural_index() + 11) % 12,
            Accidental::Sharp => (self.letter.natural_index() + 1) % 12,
        }
    }
}

/// The natural note that a character names.
pub open spec fn letter_of(c: char) -> Option<Letter> {
    if c == 'C' {
        Some(Letter::C)
    } else if c == 'D' {
        Some(Letter::D)
    } else if c == 'E' {
        Some(Letter::E)
    } else if c == 'F' {
        Some(Letter::F)
    } else if c == 'G' {
        Some(Letter::G)
    } else if c == 'A' {
        Some(Letter::A)
    } else if c == 'B' {
        Some(Letter::B)
    } else {
        None
    }
}

/// The accidental that a suffix character stands for: `b` a flat, `#` a sharp.
pub open spec fn accidental_of(c: char) -> Option<Accidental> {
    if c == 'b' {
        Some(Accidental::Flat)
    } else if c == '#' {
        Some(Accidental::Sharp)
    } else {
        None
    }
}

/// The note that a name stands for: an upper-case letter from A to G, alone
/// or followed by one accidental. Any other text names no note.
pub open spec fn parse_note_name(name: Seq<char>) -> Option<NoteName> {
    if name.len() == 1 {
        match letter_of(name[0]) {
            Some(letter) => Some(NoteName { letter, accidental: Accidental::Natural }),
            None => None,
        }
    } else if name.len() == 2 {
        match (letter_of(name[0]), accidental_of(name[1])) {
            (Some(letter), Some(accidental)) => Some(NoteName { letter, accidental }),
            _ => None,
        }
    } else {
        None
    }
}

/// The twelve reference pitches of octave 4 in millihertz, from C to B.
pub open spec fn table_millihertz(index: nat) -> nat {
    if index == 0 {
        261_626
    } else if index == 1 {
        277_183
    } else if index == 2 {
        293_665
    } else if index == 3 {
        311_127
    } else if index == 4 {
        329_628
    } else if index == 5 {
        349_228
    } else if index == 6 {
        369_994
    } else if index == 7 {
        391_995
    } else if index == 8 {
        415_305
    } else if index == 9 {
        440_000
    } else if index == 10 {
        466_164
    } else {
        493_883
    }
}

/// Frequency of a note in an octave. The reference pitch of the note belongs
/// to octave 4, where a millihertz is sixteen units; every octave above
/// doubles the frequency and every octave below halves it.
pub open spec fn note_frequency(name: NoteName, octave: nat) -> nat {
    table_millihertz(name.table_index()) * pow2(octave)
}

/// The frequencies of a pitch range as numbers.
pub open spec fn frequencies(pitches: Seq<u64>) -> Seq<nat> {
    Seq::new(pitches.len(), |i: int| pitches[i] as nat)
}

/// Frequency of the note that a name stands for in an octave; 0 where the
/// name stands for none.
pub open spec fn named_frequency(name: Seq<char>, octave: nat) -> nat {
    match parse_note_name(name) {
        Some(parsed) => note_frequency(parsed, octave),
        None => 0,
    }
}

/// The pitch range of a scale: every name of the scale in the lowest octave,
/// then every name in the octave above, and so on through `octaves` octaves.
pub open spec fn range_frequencies(scale: Seq<Seq<char>>, min_octave: nat, octaves: nat) -> Seq<
    nat,
> {
    Seq::new(
        scale.len() * octaves,
        |k: int| named_frequency(scale[k % scale.len() as int], (min_octave + k / scale.len() as int) as nat),
    )
}

/// The MIDI note nearest to `frequency`, pinned to the range of MIDI notes.
pub fn frequency_to_midi_note(frequency: u64) -> (note: usize)
    ensures
        note == midi_note(frequency as nat),
        note <= HIGHEST_NOTE,
{
    quantize(frequency).note()
}

/// Reads a natural note from a character.
fn read_letter(c: char) -> (letter: Option<Letter>)
    ensures
        letter == letter_of(c),
{
    if c == 'C' {
        Some(Letter::C)
    } else if c == 'D' {
        Some(Letter::D)
    } else if c == 'E' {
        Some(Letter::E)
    } else if c == 'F' {
        Some(Letter::F)
    } else if c == 'G' {
        Some(Letter::G)
    } else if c == 'A' {
        Some(Letter::A)
    } else if c == 'B' {
        Some(Letter::B)
    } else {
        None
    }
}

/// Reads a note name; `None` where the text names no note.
pub fn parse_name(name: &str) -> (parsed: Option<NoteName>)
    ensures
        parsed == parse_note_name(name@),
{
    let length = name.unicode_len();
    if length == 0 || length > 2 {
        return None;
    }
    let letter = match read_letter(name.get_char(0)) {
        Some(letter) => letter,
        None => {
            return None;
        },
    };
    if length == 1 {
        return Some(NoteName { letter, accidental: Accidental::Natural });
    }
    let suffix = name.get_char(1);
    if suffix == 'b' {
        Some(NoteName { letter, accidental: Accidental::Flat })
    } else if suffix == '#' {
        Some(NoteName { letter, accidental: Accidental::Sharp })
    } else {
        None
    }
}

/// Place of a note among the twelve reference pitches.
pub fn get_octave_idx(name: NoteName) -> (idx: usize)
    ensures
        idx == name.table_index(),
        idx < 12,
{
    let natural: usize = match name.letter {
        Letter::C => 0,
        Letter::D => 2,
        Letter::E => 4,
        Letter::F => 5,
        Letter::G => 7,
        Letter::A => 9,
        Letter::B => 11,
    };
    match name.accidental {
        Accidental::Natural => natural,
        Accidental::Flat => if natural == 0 {
            11
        } else {
            natural - 1
        },
        Accidental::Sharp => if natural == 11 {
            0
        } else {
            natural + 1
        },
    }
}

/// The reference pitch at a place of the table, in millihertz.
fn reference_pitch(idx: usize) -> (millihertz: u64)
    requires
        idx < 12,
    ensures
        millihertz == table_millihertz(idx as nat),
        millihertz <= 493_883,
{
    if idx == 0 {
        261_626
    } else if idx == 1 {
        277_183
    } else if idx == 2 {
        293_665
    } else if idx == 3 {
        311_127
    } else if idx == 4 {
        329_628
    } else if idx == 5 {
        349_228
    } else if idx == 6 {
        369_994
    } else if idx == 7 {
        391_995
    } else if idx == 8 {
        415_305
    } else if idx == 9 {
        440_000
    } else if idx == 10 {
        466_164
    } else {
        493_883
    }
}

/// Frequency of the named note in the given octave; `None` where the text
/// names no note or the octave lies above the highest one.
pub fn note(name: &str, octave: usize) -> (frequency: Option<u64>)
    ensures
        frequency is Some <==> parse_note_name(name@) is Some && octave <= MAX_OCTAVE,
        frequency matches Some(f) ==> f == named_frequency(name@, octave as nat),
{
    let parsed = match parse_name(name) {
        Some(parsed) => parsed,
        None => {
            return None;
        },
    };
    if octave > MAX_OCTAVE {
        return None;
    }
    let mut frequency = reference_pitch(get_octave_idx(parsed));
    let mut doubled: usize = 0;
    proof {
        lemma2_to64();
        lemma2_to64_rest();
    }
    while doubled < octave
        invariant
            doubled <= octave <= MAX_OCTAVE,
            frequency == table_millihertz(parsed.table_index()) * pow2(doubled as nat),
            table_millihertz(parsed.table_index()) <= 493_883,
            pow2(45) == 0x2000_0000_0000,
        decreases octave - doubled,
    {
        proof {
            lemma_pow2_unfold((doubled + 1) as nat);
            if doubled + 1 < 45 {
                lemma_pow2_strictly_increases((doubled + 1) as nat, 45);
            }
            assert(table_millihertz(parsed.table_index()) * pow2((doubled + 1) as nat) <= 493_883
                * 0x2000_0000_0000) by (nonlinear_arith)
                requires
                    table_millihertz(parsed.table_index()) <= 493_883,
                    pow2((doubled + 1) as nat) <= 0x2000_0000_0000,
            ;
            assert(table_millihertz(parsed.table_index()) * (2 * pow2(doubled as nat)) == 2 * (
            table_millihertz(parsed.table_index()) * pow2(doubled as nat))) by (nonlinear_arith);
        }
        frequency = frequency * 2;
        doubled += 1;
    }
    Some(frequency)
}

/// The pitch range of the composition: the frequency of every name of the
/// scale in the lowest octave, then in each octave above it up to the
/// highest.
pub fn calculate_pitches(composition: &CompositionSettings) -> (pitches: Pitches)
    requires
        composition@.valid(),
    ensures
        pitches@.len() == composition@.scale.len() * (composition@.max_octave
            - composition@.min_octave + 1),
        frequencies(pitches@) == range_frequencies(
            composition@.scale,
            composition@.min_octave,
            (composition@.max_octave - composition@.min_octave + 1) as nat,
        ),
{
    let ghost scale = composition@.scale;
    let ghost lowest = composition@.min_octave;
    let names = composition.scale.len();
    let mut pitches: Vec<u64> = Vec::new();
    let mut octave = composition.min_octave;
    while octave <= composition.max_octave
        invariant
            composition@.valid(),
            scale == composition@.scale,
            lowest == composition@.min_octave,
            names == scale.len(),
            composition.min_octave <= octave <= composition.max_octave + 1,
            pitches@.len() == names * (octave - lowest),
            forall|k: int|
                0 <= k < pitches@.len() ==> #[trigger] pitches@[k] == named_frequency(
                    scale[k % names as int],
                    (lowest + k / names as int) as nat,
                ),
        decreases composition.max_octave + 1 - octave,
    {
        let mut i: usize = 0;
        while i < names
            invariant
                composition@.valid(),
                scale == composition@.scale,
                lowest == composition@.min_octave,
                names == scale.len(),
                composition.min_octave <= octave <= composition.max_octave,
                i <= names,
                pitches@.len() == names * (octave - lowest) + i,
                forall|k: int|
                    0 <= k < pitches@.len() ==> #[trigger] pitches@[k] == named_frequency(
                        scale[k % names as int],
                        (lowest + k / names as int) as nat,
                    ),
            decreases names - i,
        {
            assert(composition@.resolvable(i as int));
            let frequency = note(composition.scale[i].as_str(), octave);
            proof {
                let k = pitches@.len() as int;
                assert(k == (octave - lowest) * names + i) by (nonlinear_arith)
                    requires
                        k == names * (octave - lowest) + i,
                ;
                lemma_fundamental_div_mod_converse_div(k, names as int, octave - lowest, i as int);
                lemma_fundamental_div_mod_converse_mod(k, names as int, octave - lowest, i as int);
            }
            match frequency {
                Some(f) => {
                    pitches.push(f);
                },
                None => {
                    assert(false);
                },
            }
            i += 1;
        }
        proof {
            assert(names * (octave - lowest) + names == names * (octave + 1 - lowest))
                by (nonlinear_arith);
        }
        octave += 1;
    }
    proof {
        let octaves = (composition@.max_octave - composition@.min_octave + 1) as nat;
        assert(frequencies(pitches@) =~= range_frequencies(
            scale,
            lowest,
            octaves,
        ));
    }
    pitches
}

/// Place of the first pitch whose nearest note lies outside the range of
/// MIDI notes, so that its note is that of the nearest end of the range;
/// `None` where every pitch has its nearest note.
pub fn first_pitch_out_of_range(pitches: &Pitches) -> (place: Option<usize>)
    ensures
        place matches Some(at) ==> {
            &&& at < pitches@.len()
            &&& !(quantization(pitches@[at as int] as nat) is InRange)
            &&& forall|j: int| 0 <= j < at ==> quantization(#[trigger] pitches@[j] as nat) is InRange
        },
        place is None ==> forall|j: int|
            0 <= j < pitches@.len() ==> quantization(#[trigger] pitches@[j] as nat) is InRange,
{
    let mut at: usize = 0;
    while at < pitches.len()
        invariant
            at <= pitches@.len(),
            forall|j: int| 0 <= j < at ==> quantization(#[trigger] pitches@[j] as nat) is InRange,
        decreases pitches@.len() - at,
    {
        match quantize(pitches[at]) {
            Quantized::InRange { note: _ } => {},
            _ => {
                return Some(at);
            },
        }
        at += 1;
    }
    None
}

/// Whether `needle` stands in `haystack` at the place `at`.
pub open spec fn occurs_at(haystack: Seq<u8>, needle: Seq<u8>, at: int) -> bool {
    &&& 0 <= at
    &&& at + needle.len() <= haystack.len()
    &&& haystack.subrange(at, at + needle.len()) == needle
}

/// Byte offset of the first occurrence of `search` in `s`, or -1 where
/// there is none. Stated of every text whose length fits the result.
pub fn index_of(s: &str, search: &str) -> (idx: isize)
    ensures
        s.spec_bytes().len() <= isize::MAX ==> {
            &&& idx == -1 ==> forall|at: int| !occurs_at(s.spec_bytes(), search.spec_bytes(), at)
            &&& idx != -1 ==> occurs_at(s.spec_bytes(), search.spec_bytes(), idx as int)
            &&& forall|at: int|
                0 <= at < idx ==> !occurs_at(s.spec_bytes(), search.spec_bytes(), at)
        },
{
    let haystack = s.as_bytes();
    let needle = search.as_bytes();
    if needle.len() > haystack.len() {
        return -1;
    }
    let last = haystack.len() - needle.len();
    let mut at: usize = 0;
    while at <= last
        invariant
            haystack@ == s.spec_bytes(),
            needle@ == search.spec_bytes(),
            haystack@.len() <= usize::MAX,
            needle@.len() <= haystack@.len(),
            last == haystack@.len() - needle@.len(),
            at <= last + 1,
            forall|earlier: int| 0 <= earlier < at ==> !occurs_at(haystack@, needle@, earlier),
        decreases last + 1 - at,
    {
        let mut matched: usize = 0;
        while matched < needle.len() && haystack[at + matched] == needle[matched]
            invariant
                at <= last,
                haystack@.len() <= usize::MAX,
                needle@.len() <= haystack@.len(),
                last == haystack@.len() - needle@.len(),
                matched <= needle@.len(),
                forall|j: int| 0 <= j < matched ==> haystack@[at + j] == needle@[j],
            decreases needle@.len() - matched,
        {
            matched += 1;
        }
        if matched == needle.len() {
            assert(haystack@.subrange(at as int, at + needle@.len()) =~= needle@);
            return #[verifier::truncate]
            (at as isize);
        }
        proof {
            let window = haystack@.subrange(at as int, at + needle@.len());
            assert(window[matched as int] != needle@[matched as int]);
        }
        at += 1;
    }
    -1
}

/// An octave up doubles the frequency of every note.
pub proof fn lemma_octave_doubles(name: NoteName, octave: nat)
    ensures
        note_frequency(name, octave + 1) == 2 * note_frequency(name, octave),
{
    lemma_pow2_unfold(octave + 1);
    assert(table_millihertz(name.table_index()) * (2 * pow2(octave)) == 2 * (table_millihertz(
        name.table_index(),
    ) * pow2(octave))) by (nonlinear_arith);
}

/// In a pitch range, the pitch that stands a scale's length after another
/// is the same note an octave up, at twice the frequency.
pub proof fn lemma_range_octave_doubles(
    scale: Seq<Seq<char>>,
    min_octave: nat,
    octaves: nat,
    k: int,
)
    requires
        0 <= k,
        k + scale.len() < scale.len() * octaves,
    ensures
        range_frequencies(scale, min_octave, octaves)[k + scale.len()] == 2 * range_frequencies(
            scale,
            min_octave,
            octaves,
        )[k],
{
    let names = scale.len() as int;
    assert(names > 0) by (nonlinear_arith)
        requires
            0 <= k,
            names >= 0,
            k + names < names * octaves,
    ;
    lemma_div_plus_one(k, names);
    lemma_mod_add_multiples_vanish(k, names);
    assert(k + names == names + k);
    let name = scale[k % names];
    let octave = (min_octave + k / names) as nat;
    assert((min_octave + (k + names) / names) as nat == octave + 1);
    match parse_note_name(name) {
        Some(parsed) => {
            lemma_octave_doubles(parsed, octave);
        },
        None => {},
    }
}

} // verus!
