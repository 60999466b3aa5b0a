use sonny::text::parse_count;
use sonny::value::{string_to_pitch, Duration, NoteValue, Number, Time};

fn frequency(semitones: i32) -> f64 {
    16.3516f64 * 1.059463094359f64.powf(semitones as f64)
}

#[test]
fn pitches_count_semitones_from_the_c_of_octave_zero() {
    assert_eq!(string_to_pitch("C0"), 0);
    assert_eq!(string_to_pitch("C"), 36);
    assert_eq!(string_to_pitch("C3"), 36);
    assert_eq!(string_to_pitch("D3"), 38);
    assert_eq!(string_to_pitch("E"), 40);
    assert_eq!(string_to_pitch("F"), 41);
    assert_eq!(string_to_pitch("G"), 43);
    assert_eq!(string_to_pitch("A4"), 57);
    assert_eq!(string_to_pitch("B9"), 119);
    assert_eq!(string_to_pitch("Bb"), 46);
    assert_eq!(string_to_pitch("Cb0"), -1);
    assert_eq!(string_to_pitch("C#"), 37);
    assert_eq!(string_to_pitch("B#9"), 120);
    assert_eq!(string_to_pitch("G#2"), 32);
}

#[test]
fn the_a_of_octave_four_is_at_440_hertz() {
    assert!((frequency(string_to_pitch("A4")) - 440.0).abs() < 0.01);
    assert!((frequency(string_to_pitch("C0")) - 16.3516).abs() < 1e-9);
}

#[test]
fn dots_compound() {
    assert_eq!(NoteValue::Quarter.dotted(0), Some((1, 4)));
    assert_eq!(NoteValue::Quarter.dotted(1), Some((3, 8)));
    assert_eq!(NoteValue::Quarter.dotted(2), Some((7, 16)));
    assert_eq!(NoteValue::Quarter.dotted(3), Some((15, 32)));
    assert_eq!(NoteValue::Whole.dotted(1), Some((3, 2)));
    assert_eq!(NoteValue::ThirtySecond.dotted(0), Some((1, 32)));
}

#[test]
fn dotted_quarters_at_tempo_sixty() {
    let seconds = |dots: usize| {
        let (n, d) = NoteValue::Quarter.dotted(dots).unwrap();
        (n as f64 / d as f64) / (60.0 / 60.0) * 4.0
    };
    assert_eq!(seconds(0), 1.0);
    assert_eq!(seconds(1), 1.5);
    assert_eq!(seconds(2), 1.75);
}

#[test]
fn too_many_dots_do_not_fit() {
    assert_eq!(NoteValue::Whole.dotted(63), Some((u64::MAX, 1u64 << 63)));
    assert_eq!(NoteValue::Whole.dotted(64), None);
    assert_eq!(NoteValue::ThirtySecond.dotted(58), Some(((1u64 << 59) - 1, 1u64 << 63)));
    assert_eq!(NoteValue::ThirtySecond.dotted(59), None);
    assert_eq!(NoteValue::Half.dotted(1000), None);
}

#[test]
fn per_whole() {
    assert_eq!(NoteValue::Whole.per_whole(), 1);
    assert_eq!(NoteValue::Half.per_whole(), 2);
    assert_eq!(NoteValue::Quarter.per_whole(), 4);
    assert_eq!(NoteValue::Eighth.per_whole(), 8);
    assert_eq!(NoteValue::Sixteenth.per_whole(), 16);
    assert_eq!(NoteValue::ThirtySecond.per_whole(), 32);
}

#[test]
fn counts() {
    assert_eq!(parse_count("0"), Some(0));
    assert_eq!(parse_count("3"), Some(3));
    assert_eq!(parse_count("0042"), Some(42));
    assert_eq!(parse_count(&usize::MAX.to_string()), Some(usize::MAX));
    assert_eq!(parse_count("340282366920938463463374607431768211456"), None);
    assert_eq!(parse_count(""), None);
    assert_eq!(parse_count("pi"), None);
    assert_eq!(parse_count("1a"), None);
    assert_eq!(parse_count("+1"), None);
}

#[test]
fn times_add_up() {
    let d = Duration::Seconds(Number::Decimal("2".to_string()));
    let zero = Time::zero();
    assert!(zero.terms.is_empty());
    let one = zero.plus(&d);
    let two = one.plus(&d);
    assert_eq!(one.terms, vec![d.clone()]);
    assert_eq!(two.terms, vec![d.clone(), d.clone()]);
    assert_eq!(two.clone(), two);
    assert!(zero.terms.is_empty());
}
