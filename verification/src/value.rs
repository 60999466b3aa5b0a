//! The values that the parser produces: numbers, pitches, durations and notes.
//!
//! Nothing here is rounded. A number is kept as the decimal literal that was
//! written, a pitch as a count of semitones, and a duration as what the source
//! said of it together with the tempo that held where it was read. A time on a
//! note sequence's own line is the sum of the durations before it, held as the
//! list of those durations.

use vstd::prelude::*;
use vstd::string::*;
use vstd::arithmetic::power2::{
    lemma2_to64, lemma_pow2_pos, lemma_pow2_strictly_increases, lemma_pow2_unfold, pow2,
};
use crate::text::{decimal_digit, digit_value};

verus! {

/// A number.
#[derive(Debug, PartialEq, Eq)]
pub enum Number {
    /// A decimal literal as written: digits, then optionally a point and more
    /// digits; or a point and digits.
    Decimal(String),
    /// The frequency of the pitch that lies this many semitones above the C
    /// of octave 0.
    Tone(i32),
    /// Zero: the pitch of a rest.
    Zero,
}

/// What a [`Number`] holds.
pub enum NumberView {
    Decimal(Seq<char>),
    Tone(int),
    Zero,
}

impl View for Number {
    type V = NumberView;

    open spec fn view(&self) -> NumberView {
        match self {
            Number::Decimal(text) => NumberView::Decimal(text@),
            Number::Tone(semitones) => NumberView::Tone(*semitones as int),
            Number::Zero => NumberView::Zero,
        }
    }
}

impl Clone for Number {
    fn clone(&self) -> (r: Self)
        ensures
            r@ == self@,
    {
        match self {
            Number::Decimal(text) => Number::Decimal(text.clone()),
            Number::Tone(semitones) => Number::Tone(*semitones),
            Number::Zero => Number::Zero,
        }
    }
}

/// A note value: the fraction of a whole note that a note lasts.
#[derive(Debug, Clone, Copy, PartialEq, Eq, Structural)]
pub enum NoteValue {
    Whole,
    Half,
    Quarter,
    Eighth,
    Sixteenth,
    ThirtySecond,
}

/// How long a note lasts.
#[derive(Debug, PartialEq, Eq)]
pub enum Duration {
    /// A number of seconds.
    Seconds(Number),
    /// `numerator / denominator` of a whole note, at the given tempo in beats
    /// per minute.
    Fraction { numerator: String, denominator: String, tempo: Number },
    /// A note value with augmentation dots, at the given tempo in beats per
    /// minute.
    Dotted { value: NoteValue, dots: usize, tempo: Number },
}

/// What a [`Duration`] holds.
pub enum DurationView {
    Seconds(NumberView),
    Fraction { numerator: Seq<char>, denominator: Seq<char>, tempo: NumberView },
    Dotted { value: NoteValue, dots: nat, tempo: NumberView },
}

impl View for Duration {
    type V = DurationView;

    open spec fn view(&self) -> DurationView {
        match self {
            Duration::Seconds(seconds) => DurationView::Seconds(seconds@),
            Duration::Fraction { numerator, denominator, tempo } => DurationView::Fraction {
                numerator: numerator@,
                denominator: denominator@,
                tempo: tempo@,
            },
            Duration::Dotted { value, dots, tempo } => DurationView::Dotted {
                value: *value,
                dots: *dots as nat,
                tempo: tempo@,
            },
        }
    }
}

impl Clone for Duration {
    fn clone(&self) -> (r: Self)
        ensures
            r@ == self@,
    {
        match self {
            Duration::Seconds(seconds) => Duration::Seconds(seconds.clone()),
            Duration::Fraction { numerator, denominator, tempo } => Duration::Fraction {
                numerator: numerator.clone(),
                denominator: denominator.clone(),
                tempo: tempo.clone(),
            },
            Duration::Dotted { value, dots, tempo } => Duration::Dotted {
                value: *value,
                dots: *dots,
                tempo: tempo.clone(),
            },
        }
    }
}

/// A point on a note sequence's own time line: the sum of the durations
/// listed, zero when there are none.
#[derive(Debug, PartialEq, Eq)]
pub struct Time {
    pub terms: Vec<Duration>,
}

impl View for Time {
    type V = Seq<DurationView>;

    open spec fn view(&self) -> Seq<DurationView> {
        Seq::new(self.terms.len() as nat, |i: int| self.terms[i]@)
    }
}

impl Time {
    /// The start of the time line.
    pub fn zero() -> (t: Time)
        ensures
            t@ == Seq::<DurationView>::empty(),
    {
        let t = Time { terms: Vec::new() };
        assert(t@ =~= Seq::<DurationView>::empty());
        t
    }

    /// This time and `duration` more.
    pub fn plus(&self, duration: &Duration) -> (t: Time)
        ensures
            t@ == self@.push(duration@),
    {
        let mut t = self.clone();
        t.terms.push(duration.clone());
        assert(t@ =~= self@.push(duration@));
        t
    }
}

impl Clone for Time {
    fn clone(&self) -> (r: Self)
        ensures
            r@ == self@,
    {
        let mut terms: Vec<Duration> = Vec::new();
        let mut i: usize = 0;
        while i < self.terms.len()
            invariant
                i <= self.terms.len(),
                terms.len() == i,
                forall|j: int| 0 <= j < i ==> terms[j]@ == self.terms[j]@,
            decreases self.terms.len() - i,
        {
            terms.push(self.terms[i].clone());
            i = i + 1;
        }
        let r = Time { terms };
        assert(r@ =~= self@);
        r
    }
}

/// The stretch of a note sequence's time line that a note fills: from `start`
/// up to, not including, `end`.
#[derive(Debug, PartialEq, Eq)]
pub struct Period {
    pub start: Time,
    pub end: Time,
}

/// A note: a pitch and the period in which it sounds.
#[derive(Debug, PartialEq, Eq)]
pub struct Note {
    pub pitch: Number,
    pub period: Period,
}

/// What a [`Note`] holds.
pub struct NoteView {
    pub pitch: NumberView,
    pub start: Seq<DurationView>,
    pub end: Seq<DurationView>,
}

impl View for Note {
    type V = NoteView;

    open spec fn view(&self) -> NoteView {
        NoteView { pitch: self.pitch@, start: self.period.start@, end: self.period.end@ }
    }
}

/// What a list of notes holds.
pub open spec fn notes_view(notes: Seq<Note>) -> Seq<NoteView> {
    Seq::new(notes.len(), |i: int| notes[i]@)
}

/// The semitones by which a note letter lies above C.
pub open spec fn letter_offset(c: char) -> int {
    if c == 'C' {
        0
    } else if c == 'D' {
        2
    } else if c == 'E' {
        4
    } else if c == 'F' {
        5
    } else if c == 'G' {
        7
    } else if c == 'A' {
        9
    } else {
        11
    }
}

/// A letter that names a pitch class.
pub open spec fn pitch_letter(c: char) -> bool {
    'A' <= c && c <= 'G'
}

/// The texts that name a pitch: a letter `A` to `G`, then at most one
/// accidental, `#` or `b`, then at most one digit for the octave.
pub open spec fn pitch_text(s: Seq<char>) -> bool {
    &&& 1 <= s.len() <= 3
    &&& pitch_letter(s[0])
    &&& s.len() == 2 ==> s[1] == '#' || s[1] == 'b' || decimal_digit(s[1])
    &&& s.len() == 3 ==> (s[1] == '#' || s[1] == 'b') && decimal_digit(s[2])
}

/// The semitone that an accidental adds: one for a sharp, minus one for a
/// flat, none where there is no accidental.
pub open spec fn accidental_offset(s: Seq<char>) -> int {
    if s.len() >= 2 && s[1] == '#' {
        1
    } else if s.len() >= 2 && s[1] == 'b' {
        -1
    } else {
        0
    }
}

/// The octave of a pitch text: its trailing digit, or 3 where it has none.
pub open spec fn octave(s: Seq<char>) -> int {
    if s.len() >= 2 && decimal_digit(s[s.len() - 1]) {
        digit_value(s[s.len() - 1])
    } else {
        3
    }
}

/// The number of semitones by which the pitch that `s` names lies above the C
/// of octave 0. Its frequency in Hertz is `16.3516` times `1.059463094359` to
/// that power.
pub open spec fn pitch_semitones(s: Seq<char>) -> int {
    letter_offset(s[0]) + accidental_offset(s) + 12 * octave(s)
}

/// Converts the text of a pitch to its number of semitones above the C of
/// octave 0.
pub fn string_to_pitch(s: &str) -> (semitones: i32)
    requires
        pitch_text(s@),
    ensures
        semitones == pitch_semitones(s@),
        -1 <= semitones <= 120,
{
    let len = s.unicode_len();
    let letter = s.get_char(0);
    let mut octave: i32 = 3;
    let accidental: i32 = if len > 1 {
        let second = s.get_char(1);
        if second == '#' || second == 'b' {
            if len == 3 {
                octave = digit_of(s.get_char(2));
            }
            if second == '#' {
                1
            } else {
                -1
            }
        } else {
            octave = digit_of(second);
            0
        }
    } else {
        0
    };
    let local_offset: i32 = if letter == 'C' {
        0
    } else if letter == 'D' {
        2
    } else if letter == 'E' {
        4
    } else if letter == 'F' {
        5
    } else if letter == 'G' {
        7
    } else if letter == 'A' {
        9
    } else {
        11
    };
    local_offset + accidental + octave * 12
}

/// The value of a decimal digit.
pub fn digit_of(c: char) -> (d: i32)
    requires
        decimal_digit(c),
    ensures
        d == digit_value(c),
        0 <= d <= 9,
{
    (c as u32 - '0' as u32) as i32
}

/// The number of notes of this value that fill a whole note.
pub open spec fn per_whole(value: NoteValue) -> nat {
    match value {
        NoteValue::Whole => 1,
        NoteValue::Half => 2,
        NoteValue::Quarter => 4,
        NoteValue::Eighth => 8,
        NoteValue::Sixteenth => 16,
        NoteValue::ThirtySecond => 32,
    }
}

/// The numerator of the length of a note with `dots` augmentation dots, as a
/// fraction of a whole note: `2^(dots + 1) - 1`.
pub open spec fn dotted_numerator(dots: nat) -> int {
    pow2(dots + 1) - 1
}

/// The denominator that goes with [`dotted_numerator`]: the notes of this
/// value per whole note, times `2^dots`.
pub open spec fn dotted_denominator(value: NoteValue, dots: nat) -> int {
    (per_whole(value) * pow2(dots)) as int
}

/// Powers of two grow.
pub proof fn lemma_pow2_grows(m: nat, n: nat)
    requires
        m <= n,
    ensures
        1 <= pow2(m) <= pow2(n),
{
    lemma_pow2_pos(m);
    if m < n {
        lemma_pow2_strictly_increases(m, n);
    }
}

/// Augmentation dots compound: an undotted note has its plain value, and each
/// further dot adds half of what the dot before it added (the first one half
/// of the plain value). So one dot makes a note one and a half times as long
/// and two dots make it one and three quarter times as long.
pub proof fn law_dots_compound(value: NoteValue, dots: nat)
    ensures
        dotted_numerator(0) == 1,
        dotted_denominator(value, 0) == per_whole(value),
        dotted_numerator(dots + 1) == 2 * dotted_numerator(dots) + 1,
        dotted_denominator(value, dots + 1) == 2 * dotted_denominator(value, dots),
        2 * dotted_numerator(1) * dotted_denominator(value, 0) == 3 * dotted_denominator(value, 1),
        4 * dotted_numerator(2) * dotted_denominator(value, 0) == 7 * dotted_denominator(value, 2),
{
    lemma2_to64();
    lemma_pow2_unfold(dots + 2);
    lemma_pow2_unfold(dots + 1);
    assert(per_whole(value) * (2 * pow2(dots)) == 2 * (per_whole(value) * pow2(dots)))
        by (nonlinear_arith);
    let b = per_whole(value);
    assert(b * pow2(0) == b && b * pow2(1) == 2 * b && b * pow2(2) == 4 * b) by (nonlinear_arith)
        requires
            pow2(0) == 1 && pow2(1) == 2 && pow2(2) == 4,
    ;
    let (n1, n2) = (dotted_numerator(1), dotted_numerator(2));
    let (d0, d1, d2) = (
        dotted_denominator(value, 0),
        dotted_denominator(value, 1),
        dotted_denominator(value, 2),
    );
    assert(2 * n1 * d0 == 3 * d1 && 4 * n2 * d0 == 7 * d2) by (nonlinear_arith)
        requires
            n1 == 3 && n2 == 7 && d0 == b && d1 == 2 * b && d2 == 4 * b,
    ;
}

impl NoteValue {
    /// The number of notes of this value that fill a whole note.
    pub fn per_whole(self) -> (n: u64)
        ensures
            n == per_whole(self),
    {
        match self {
            NoteValue::Whole => 1,
            NoteValue::Half => 2,
            NoteValue::Quarter => 4,
            NoteValue::Eighth => 8,
            NoteValue::Sixteenth => 16,
            NoteValue::ThirtySecond => 32,
        }
    }

    /// The length of a note of this value with `dots` augmentation dots, as
    /// the numerator and the denominator of a fraction of a whole note.
    /// `None` where the denominator does not fit in 64 bits.
    pub fn dotted(self, dots: usize) -> (r: Option<(u64, u64)>)
        ensures
            dotted_denominator(self, dots as nat) <= u64::MAX ==> r == Some(
                (dotted_numerator(dots as nat) as u64, dotted_denominator(self, dots as nat) as u64),
            ),
            dotted_denominator(self, dots as nat) > u64::MAX ==> r.is_none(),
    {
        let base = self.per_whole();
        if dots > 63 {
            proof {
                lemma2_to64();
                lemma_pow2_grows(64, dots as nat);
                assert(per_whole(self) * pow2(dots as nat) >= pow2(dots as nat))
                    by (nonlinear_arith)
                    requires
                        per_whole(self) >= 1,
                ;
            }
            return None;
        }
        let mut numerator: u64 = 1;
        let mut denominator: u64 = base;
        let mut i: usize = 0;
        proof {
            lemma2_to64();
        }
        while i < dots
            invariant
                i <= dots <= 63,
                base == per_whole(self),
                numerator == dotted_numerator(i as nat),
                denominator == dotted_denominator(self, i as nat),
            decreases dots - i,
        {
            proof {
                law_dots_compound(self, i as nat);
                lemma2_to64();
                lemma_pow2_grows((i + 2) as nat, 64);
            }
            if denominator > u64::MAX / 2 {
                proof {
                    lemma_pow2_grows((i + 1) as nat, dots as nat);
                    assert(per_whole(self) * pow2((i + 1) as nat) <= per_whole(self) * pow2(
                        dots as nat,
                    )) by (nonlinear_arith)
                        requires
                            pow2((i + 1) as nat) <= pow2(dots as nat),
                    ;
                }
                return None;
            }
            numerator = 2 * numerator + 1;
            denominator = 2 * denominator;
            i = i + 1;
        }
        Some((numerator, denominator))
    }
}

} // verus!
