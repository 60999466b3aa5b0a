use sonny::builder::{Builder, Chain};
use sonny::error::{Error, ErrorSpec, Expected};
use sonny::expr::{Binary, ChainName, Expression, Operand, Operation, Property, Unary};
use sonny::lexer::{Token, TokenType};
use sonny::parser::{parse_source, Parser, Source};
use sonny::value::{Duration, Note, NoteValue, Number, Time};

fn source(name: &str, text: &str) -> Source {
    Source { name: name.to_string(), text: text.as_bytes().to_vec() }
}

fn parse_all(sources: &Vec<Source>) -> Result<Builder, Error> {
    Parser::new(&sources[0].name, sources, Builder::new())?.parse(sources, false)
}

fn parse(text: &str) -> Result<Builder, Error> {
    parse_all(&vec![source("main", text)])
}

fn fails(text: &str) -> Error {
    match parse(text) {
        Ok(_) => panic!("parsed: {}", text),
        Err(e) => e,
    }
}

/// The only link of the chain that `text` declares as `x`.
fn link_of(text: &str) -> Expression {
    let builder = parse(text).unwrap();
    let mut found = None;
    for chain in builder.chains() {
        if chain.name.as_deref() == Some("x") {
            assert_eq!(chain.links.len(), 1);
            found = Some(expression_copy(&chain.links[0]));
        }
    }
    found.unwrap()
}

fn operand_copy(o: &Operand) -> Operand {
    match o {
        Operand::Num(n) => Operand::Num(n.clone()),
        Operand::Time => Operand::Time,
        Operand::BackLink(n) => Operand::BackLink(*n),
        Operand::Id(c) => Operand::Id(*c),
        Operand::Property(c, p) => Operand::Property(*c, *p),
        Operand::Notes(_) => panic!("notes"),
        Operand::Expression(e) => Operand::Expression(Box::new(expression_copy(e))),
    }
}

fn expression_copy(e: &Expression) -> Expression {
    let c = operand_copy;
    Expression(match &e.0 {
        Operation::Negate(a) => Operation::Negate(c(a)),
        Operation::Sine(a) => Operation::Sine(c(a)),
        Operation::Cosine(a) => Operation::Cosine(c(a)),
        Operation::Ceiling(a) => Operation::Ceiling(c(a)),
        Operation::Floor(a) => Operation::Floor(c(a)),
        Operation::AbsoluteValue(a) => Operation::AbsoluteValue(c(a)),
        Operation::Logarithm(a) => Operation::Logarithm(c(a)),
        Operation::Min(a, b) => Operation::Min(c(a), c(b)),
        Operation::Max(a, b) => Operation::Max(c(a), c(b)),
        Operation::Power(a, b) => Operation::Power(c(a), c(b)),
        Operation::Multiply(a, b) => Operation::Multiply(c(a), c(b)),
        Operation::Divide(a, b) => Operation::Divide(c(a), c(b)),
        Operation::Remainder(a, b) => Operation::Remainder(c(a), c(b)),
        Operation::Add(a, b) => Operation::Add(c(a), c(b)),
        Operation::Subtract(a, b) => Operation::Subtract(c(a), c(b)),
        Operation::Operand(a) => Operation::Operand(c(a)),
    })
}

fn num(text: &str) -> Expression {
    Expression::operand(Operand::Num(Number::Decimal(text.to_string())))
}

fn group(e: Expression) -> Expression {
    Expression::operand(Operand::Expression(Box::new(e)))
}

fn tok(kind: TokenType, text: &str) -> Token {
    Token(kind, text.to_string())
}

fn named<'a>(builder: &'a Builder, name: &str) -> (usize, &'a Chain) {
    for (i, chain) in builder.chains().iter().enumerate() {
        if chain.name.as_deref() == Some(name) {
            return (i, chain);
        }
    }
    panic!("no chain {}", name)
}

fn number(n: &Number) -> f64 {
    match n {
        Number::Decimal(text) => text.parse::<f64>().unwrap(),
        Number::Tone(semitones) => 16.3516f64 * 1.059463094359f64.powf(*semitones as f64),
        Number::Zero => 0.0,
    }
}

fn seconds(d: &Duration) -> f64 {
    match d {
        Duration::Seconds(n) => number(n),
        Duration::Fraction { numerator, denominator, tempo } => {
            let n = numerator.parse::<f64>().unwrap();
            let m = denominator.parse::<f64>().unwrap();
            (n / m) / (number(tempo) / 60.0) * 4.0
        }
        Duration::Dotted { value, dots, tempo } => {
            let (n, m) = value.dotted(*dots).unwrap();
            (n as f64 / m as f64) / (number(tempo) / 60.0) * 4.0
        }
    }
}

fn at(t: &Time) -> f64 {
    t.terms.iter().map(seconds).sum()
}

fn notes_of(chain: &Chain) -> &Vec<Note> {
    match &chain.links[0].0 {
        Operation::Operand(Operand::Notes(notes)) => notes,
        _ => panic!("no notes"),
    }
}

#[test]
fn an_empty_source_is_one_empty_chain() {
    let builder = parse("").unwrap();
    assert_eq!(builder.chains().len(), 1);
    assert_eq!(builder.chains()[0].name.as_deref(), Some("main"));
    assert!(builder.chains()[0].links.is_empty());
    assert!(!builder.chains()[0].play);
    assert_eq!(builder.tempo, Number::Decimal("120".to_string()));
    assert_eq!(builder.end_time, Number::Zero);
}

#[test]
fn the_chain_of_a_source_is_named_by_the_stem_of_its_name() {
    let sources = vec![source("song_1.sn", "1")];
    let builder = parse_all(&sources).unwrap();
    assert_eq!(builder.chains()[0].name.as_deref(), Some("song_1"));
    let sources = vec![source("./song", "1")];
    let builder = parse_all(&sources).unwrap();
    assert_eq!(builder.chains()[0].name.as_deref(), Some(""));
}

#[test]
fn two_quarter_notes_at_tempo_120() {
    let builder = parse("tempo: 120\na: {C3:q, D3:q} -> out").unwrap();
    assert_eq!(builder.chains().len(), 2);
    let (_, a) = named(&builder, "a");
    assert!(a.play);
    assert_eq!(a.links.len(), 1);
    let notes = notes_of(a);
    assert_eq!(notes.len(), 2);
    assert_eq!(notes[0].pitch, Number::Tone(36));
    assert_eq!(notes[1].pitch, Number::Tone(38));
    assert_eq!(at(&notes[0].period.start), 0.0);
    assert_eq!(at(&notes[0].period.end), 0.5);
    assert_eq!(at(&notes[1].period.start), 0.5);
    assert_eq!(at(&notes[1].period.end), 1.0);
    let quarter = Duration::Dotted {
        value: NoteValue::Quarter,
        dots: 0,
        tempo: Number::Decimal("120".to_string()),
    };
    assert_eq!(notes[0].period.start.terms, vec![]);
    assert_eq!(notes[0].period.end.terms, vec![quarter.clone()]);
    assert_eq!(notes[1].period.start.terms, vec![quarter.clone()]);
    assert_eq!(notes[1].period.end.terms, vec![quarter.clone(), quarter.clone()]);
    assert_eq!(builder.tempo, Number::Decimal("120".to_string()));
}

#[test]
fn every_note_sequence_starts_at_zero() {
    let builder = parse("a: {C:1, D:2} -> {E:3}").unwrap();
    let (_, a) = named(&builder, "a");
    assert_eq!(a.links.len(), 2);
    let first = notes_of(a);
    assert_eq!(at(&first[1].period.start), 1.0);
    assert_eq!(at(&first[1].period.end), 3.0);
    match &a.links[1].0 {
        Operation::Operand(Operand::Notes(notes)) => {
            assert_eq!(at(&notes[0].period.start), 0.0);
            assert_eq!(at(&notes[0].period.end), 3.0);
        }
        _ => panic!("no notes"),
    }
}

#[test]
fn dotted_durations_compound() {
    let builder = parse("tempo: 60\na: {C:q, C:q., C:q.., _:w}").unwrap();
    let (_, a) = named(&builder, "a");
    let notes = notes_of(a);
    let length = |n: &Note| at(&n.period.end) - at(&n.period.start);
    assert_eq!(length(&notes[0]), 1.0);
    assert_eq!(length(&notes[1]), 1.5);
    assert_eq!(length(&notes[2]), 1.75);
    assert_eq!(length(&notes[3]), 4.0);
    assert_eq!(notes[3].pitch, Number::Zero);
    assert_eq!(
        notes[2].period.end.terms[2],
        Duration::Dotted {
            value: NoteValue::Quarter,
            dots: 2,
            tempo: Number::Decimal("60".to_string()),
        }
    );
}

#[test]
fn durations_of_every_kind() {
    let builder = parse("tempo: 240\na: {440:3/8, 220.5:1.25, C:ts, C:h, C:e, C:s, pi:0.5}").unwrap();
    let (_, a) = named(&builder, "a");
    let notes = notes_of(a);
    let tempo = Number::Decimal("240".to_string());
    assert_eq!(notes[0].pitch, Number::Decimal("440".to_string()));
    assert_eq!(
        notes[0].period.end.terms[0],
        Duration::Fraction {
            numerator: "3".to_string(),
            denominator: "8".to_string(),
            tempo: tempo.clone(),
        }
    );
    assert_eq!(at(&notes[0].period.end), 0.375);
    assert_eq!(notes[1].pitch, Number::Decimal("220.5".to_string()));
    assert_eq!(
        notes[1].period.end.terms[1],
        Duration::Seconds(Number::Decimal("1.25".to_string()))
    );
    let value = |i: usize| match &notes[i].period.end.terms[i] {
        Duration::Dotted { value, dots: 0, .. } => *value,
        _ => panic!("no note value"),
    };
    assert_eq!(value(2), NoteValue::ThirtySecond);
    assert_eq!(value(3), NoteValue::Half);
    assert_eq!(value(4), NoteValue::Eighth);
    assert_eq!(value(5), NoteValue::Sixteenth);
    assert_eq!(notes[6].pitch, Number::Decimal("3.14159265358979323846".to_string()));
    assert_eq!(
        notes[6].period.end.terms[6],
        Duration::Seconds(Number::Decimal("0.5".to_string()))
    );
}

#[test]
fn the_tempo_that_holds_is_the_one_set_last() {
    let builder = parse("a: {C:q}\ntempo: 90.5\nb: {C:q}").unwrap();
    let tempo_of = |name: &str| match &notes_of(named(&builder, name).1)[0].period.end.terms[0] {
        Duration::Dotted { tempo, .. } => tempo.clone(),
        _ => panic!("no note value"),
    };
    assert_eq!(tempo_of("a"), Number::Decimal("120".to_string()));
    assert_eq!(tempo_of("b"), Number::Decimal("90.5".to_string()));
    assert_eq!(builder.tempo, Number::Decimal("90.5".to_string()));
}

#[test]
fn a_tempo_alone_is_a_program() {
    let builder = parse("tempo: 60").unwrap();
    assert_eq!(builder.tempo, Number::Decimal("60".to_string()));
    assert_eq!(builder.chains().len(), 1);
}

#[test]
fn out_may_set_the_end_time() {
    let builder = parse("a: 1 -> out: 2.5").unwrap();
    assert_eq!(builder.end_time, Number::Decimal("2.5".to_string()));
    assert!(named(&builder, "a").1.play);
    let builder = parse("a: 1 -> 2").unwrap();
    assert!(!named(&builder, "a").1.play);
    assert_eq!(named(&builder, "a").1.links.len(), 2);
}

#[test]
fn nested_unary_operations() {
    let sin = |e| Expression::unary(Unary::Sine, e);
    assert_eq!(link_of("x: sin 1"), sin(num("1")));
    assert_eq!(link_of("x: sin sin sin 1"), sin(sin(sin(num("1")))));
    assert_eq!(
        link_of("x: sin(sin(sin(1)))"),
        sin(group(sin(group(sin(group(num("1")))))))
    );
    assert_eq!(
        link_of("x: - cos ceil floor abs - 7"),
        Expression::unary(
            Unary::Negate,
            Expression::unary(
                Unary::Cosine,
                Expression::unary(
                    Unary::Ceiling,
                    Expression::unary(
                        Unary::Floor,
                        Expression::unary(
                            Unary::AbsoluteValue,
                            Expression::unary(Unary::Negate, num("7"))
                        )
                    )
                )
            )
        )
    );
}

#[test]
fn deeply_nested_unary_operations() {
    let depth = 200;
    let mut text = String::from("x: ");
    let mut expected = num("1");
    for _ in 0..depth {
        text.push_str("sin ");
        expected = Expression::unary(Unary::Sine, expected);
    }
    text.push('1');
    assert_eq!(link_of(&text), expected);
}

#[test]
fn products_bind_more_than_sums() {
    let b = Expression::binary;
    assert_eq!(
        link_of("x: 1 + 2 * 3"),
        b(Binary::Add, num("1"), b(Binary::Multiply, num("2"), num("3")))
    );
    assert_eq!(
        link_of("x: 1 * 2 + 3"),
        b(Binary::Add, b(Binary::Multiply, num("1"), num("2")), num("3"))
    );
    assert_eq!(
        link_of("x: (1 + 2) * 3"),
        b(Binary::Multiply, group(b(Binary::Add, num("1"), num("2"))), num("3"))
    );
}

#[test]
fn sums_and_products_associate_to_the_left() {
    let b = Expression::binary;
    assert_eq!(
        link_of("x: 1 - 2 + 3"),
        b(Binary::Add, b(Binary::Subtract, num("1"), num("2")), num("3"))
    );
    assert_eq!(
        link_of("x: 8 / 4 % 3 * 2"),
        b(
            Binary::Multiply,
            b(Binary::Remainder, b(Binary::Divide, num("8"), num("4")), num("3")),
            num("2")
        )
    );
    assert_eq!(
        link_of("x: 1 min 2 max 3"),
        b(Binary::Max, b(Binary::Min, num("1"), num("2")), num("3"))
    );
}

#[test]
fn powers_take_a_power_on_their_right_and_log_follows_its_operand() {
    let b = Expression::binary;
    assert_eq!(
        link_of("x: 2 ^ 3 ^ 4"),
        b(Binary::Power, num("2"), b(Binary::Power, num("3"), num("4")))
    );
    assert_eq!(link_of("x: 8 log"), Expression::unary(Unary::Logarithm, num("8")));
    assert_eq!(
        link_of("x: 2 ^ 3 log"),
        b(Binary::Power, num("2"), Expression::unary(Unary::Logarithm, num("3")))
    );
    assert_eq!(
        link_of("x: 2 * 3 ^ 1 min 2"),
        b(
            Binary::Multiply,
            num("2"),
            b(Binary::Power, num("3"), b(Binary::Min, num("1"), num("2")))
        )
    );
}

#[test]
fn terms() {
    assert_eq!(link_of("x: time"), Expression::operand(Operand::Time));
    assert_eq!(link_of("x: 1.5"), num("1.5"));
    assert_eq!(link_of("x: 2."), num("2."));
    assert_eq!(link_of("x: pi"), num("3.14159265358979323846"));
    assert_eq!(link_of("x: A4"), Expression::operand(Operand::Num(Number::Tone(57))));
    assert_eq!(link_of("x: !3"), Expression::operand(Operand::BackLink(3)));
    assert_eq!(link_of("x: ((1))"), group(group(num("1"))));
}

#[test]
fn a_backlink_of_zero_is_rejected() {
    assert_eq!(fails("a: !0"), Error { kind: ErrorSpec::ZeroBacklink, line: 1 });
    assert_eq!(fails("a: !000"), Error { kind: ErrorSpec::ZeroBacklink, line: 1 });
    assert_eq!(
        fails("a:\n !x"),
        Error { kind: ErrorSpec::InvalidBackLink(tok(TokenType::Id, "x")), line: 2 }
    );
    assert_eq!(
        fails("a: !pi"),
        Error { kind: ErrorSpec::InvalidBackLink(tok(TokenType::Num, "pi")), line: 1 }
    );
    assert_eq!(
        fails("a: !"),
        Error { kind: ErrorSpec::InvalidBackLink(tok(TokenType::Done, "")), line: 1 }
    );
    assert_eq!(
        fails("a: !99999999999999999999999999999999999999999"),
        Error {
            kind: ErrorSpec::InvalidBackLink(tok(
                TokenType::Num,
                "99999999999999999999999999999999999999999"
            )),
            line: 1
        }
    );
}

#[test]
fn references_resolve_to_chains_declared_before() {
    let builder = parse("a: 1\nx: a + a").unwrap();
    let (a, _) = named(&builder, "a");
    let (_, x) = named(&builder, "x");
    let id = || Expression::operand(Operand::Id(ChainName(a)));
    assert_eq!(x.links[0], Expression::binary(Binary::Add, id(), id()));
    assert_eq!(
        fails("x: a + 1\na: 1"),
        Error { kind: ErrorSpec::CantFindChain("a".to_string()), line: 1 }
    );
    assert_eq!(
        fails("x: x"),
        Error { kind: ErrorSpec::CantFindChain("x".to_string()), line: 1 }
    );
}

#[test]
fn properties_are_for_chains_of_notes() {
    let builder = parse("a: {C:q} -> {D:h}\nx: a.start + a.end * a.dur").unwrap();
    let (a, _) = named(&builder, "a");
    let (_, x) = named(&builder, "x");
    let p = |p| Expression::operand(Operand::Property(ChainName(a), p));
    assert_eq!(
        x.links[0],
        Expression::binary(
            Binary::Add,
            p(Property::Start),
            Expression::binary(Binary::Multiply, p(Property::End), p(Property::Duration))
        )
    );
    assert_eq!(
        fails("a: 1 + 2\nb: a.start"),
        Error {
            kind: ErrorSpec::PropertyOfGenericChain(ChainName(1), "start".to_string()),
            line: 2
        }
    );
    assert_eq!(
        fails("a: {C:q} -> 1\nb: a.dur"),
        Error {
            kind: ErrorSpec::PropertyOfGenericChain(ChainName(1), "dur".to_string()),
            line: 2
        }
    );
    assert_eq!(
        fails("a: {C:q}\nb: a.length"),
        Error {
            kind: ErrorSpec::ExpectedNotesProperty(tok(TokenType::Id, "length")),
            line: 2
        }
    );
}

#[test]
fn a_chain_between_bars_is_declared_and_referred_to() {
    let builder = parse("x: 1 -> |y: {C:q}| -> y.start -> |2|").unwrap();
    let (xi, x) = named(&builder, "x");
    let (yi, y) = named(&builder, "y");
    assert_eq!((xi, yi), (1, 2));
    assert_eq!(builder.chains().len(), 4);
    assert_eq!(builder.chains()[3].name, None);
    assert_eq!(builder.chains()[3].links, vec![num("2")]);
    assert_eq!(y.links.len(), 1);
    assert_eq!(
        x.links,
        vec![
            num("1"),
            Expression::operand(Operand::Id(ChainName(2))),
            Expression::operand(Operand::Property(ChainName(2), Property::Start)),
            Expression::operand(Operand::Id(ChainName(3))),
        ]
    );
    let builder = parse("x: |y: 1|\nz: x::y + 1").unwrap();
    let (_, z) = named(&builder, "z");
    assert_eq!(
        z.links[0],
        Expression::binary(Binary::Add, Expression::operand(Operand::Id(ChainName(2))), num("1"))
    );
    assert_eq!(
        fails("x: |y: 1|\nz: y"),
        Error { kind: ErrorSpec::CantFindChain("y".to_string()), line: 2 }
    );
}

#[test]
fn anonymous_chains_at_the_top() {
    let builder = parse("1 + 2 -> out\n3").unwrap();
    assert_eq!(builder.chains().len(), 3);
    assert_eq!(builder.chains()[1].name, None);
    assert!(builder.chains()[1].play);
    assert_eq!(builder.chains()[2].links, vec![num("3")]);
}

#[test]
fn a_used_source_leaves_its_names_behind() {
    let sources = vec![
        source("main", "use: other\nb: other::a + 1 -> out"),
        source("other", "a: 2"),
    ];
    let builder = parse_all(&sources).unwrap();
    let names: Vec<Option<&str>> = builder.chains().iter().map(|c| c.name.as_deref()).collect();
    assert_eq!(names, vec![Some("main"), Some("other"), Some("a"), Some("b")]);
    let (_, b) = named(&builder, "b");
    assert_eq!(
        b.links[0],
        Expression::binary(Binary::Add, Expression::operand(Operand::Id(ChainName(2))), num("1"))
    );
    let sources = vec![source("main", "use: other\nb: other"), source("other", "a: 2")];
    let builder = parse_all(&sources).unwrap();
    assert_eq!(
        named(&builder, "b").1.links[0],
        Expression::operand(Operand::Id(ChainName(1)))
    );
}

#[test]
fn a_used_source_does_not_see_the_names_of_its_user() {
    let sources = vec![source("main", "x: 1\nuse: other\ny: x"), source("other", "a: x")];
    assert_eq!(
        parse_all(&sources).err(),
        Some(Error { kind: ErrorSpec::CantFindChain("x".to_string()), line: 1 })
    );
    let sources = vec![source("main", "x: 1\nuse: other\ny: x + other::x"), source("other", "x: 2")];
    let builder = parse_all(&sources).unwrap();
    let (_, y) = named(&builder, "y");
    assert_eq!(
        y.links[0],
        Expression::binary(
            Binary::Add,
            Expression::operand(Operand::Id(ChainName(1))),
            Expression::operand(Operand::Id(ChainName(3)))
        )
    );
}

#[test]
fn the_names_of_a_used_source_stand_behind_its_own() {
    let sources = vec![source("main", "use: other\nb: a"), source("other", "a: 2")];
    assert_eq!(
        parse_all(&sources).err(),
        Some(Error { kind: ErrorSpec::CantFindChain("a".to_string()), line: 2 })
    );
}

#[test]
fn a_used_source_may_have_an_extension() {
    let sources = vec![source("main", "use: lib.sn\nb: lib::a"), source("lib.sn", "a: 2")];
    let builder = parse_all(&sources).unwrap();
    assert_eq!(builder.chains()[1].name.as_deref(), Some("lib"));
    assert_eq!(
        named(&builder, "b").1.links[0],
        Expression::operand(Operand::Id(ChainName(2)))
    );
}

#[test]
fn sources_that_use_each_other() {
    let sources = vec![source("main", "use: main")];
    assert_eq!(
        parse_all(&sources).err(),
        Some(Error { kind: ErrorSpec::IncludeTooDeep("main".to_string()), line: 1 })
    );
    let sources = vec![source("a", "use: b"), source("b", "\nuse: a")];
    assert_eq!(
        parse_all(&sources).err(),
        Some(Error { kind: ErrorSpec::IncludeTooDeep("b".to_string()), line: 1 })
    );
    let sources = vec![source("a", "use: b"), source("b", "use: c"), source("c", "1")];
    assert_eq!(parse_all(&sources).unwrap().chains().len(), 4);
}

#[test]
fn a_source_that_is_used_twice_declares_its_chain_twice() {
    let sources = vec![source("a", "use: b\nuse: c"), source("b", "use: c"), source("c", "1")];
    assert_eq!(
        parse_all(&sources).err(),
        Some(Error { kind: ErrorSpec::ChainRedeclaration("c".to_string()), line: 1 })
    );
}

#[test]
fn a_real_number_may_begin_with_its_point() {
    assert_eq!(parse("tempo: .5").unwrap().tempo, Number::Decimal(".5".to_string()));
    assert_eq!(parse("tempo: 1.").unwrap().tempo, Number::Decimal("1.".to_string()));
    assert_eq!(
        fails("tempo: ."),
        Error {
            kind: ErrorSpec::ExpectedFound(
                Expected::Kind(TokenType::Num),
                tok(TokenType::Misc, ".")
            ),
            line: 1
        }
    );
}

#[test]
fn a_source_is_parsed_in_one_call() {
    let sources = vec![source("main", "use: other\nb: other::a"), source("other", "a: 2")];
    let builder = parse_source("main", &sources, Builder::new(), true).unwrap();
    assert_eq!(builder.chains().len(), 4);
    assert_eq!(builder.find_chain("main::b").map(|h| h.name), Some(ChainName(3)));
    assert_eq!(builder.find_chain("other::a").map(|h| h.name), Some(ChainName(2)));
    assert_eq!(builder.find_chain("b"), None);
    let builder = parse_source("other", &sources, Builder::new(), false).unwrap();
    assert_eq!(builder.find_chain("a").map(|h| h.name), Some(ChainName(1)));
    assert_eq!(builder.find_chain("other"), None);
    assert_eq!(
        parse_source("none", &sources, Builder::new(), true).err(),
        Some(Error { kind: ErrorSpec::CantOpenFile("none".to_string()), line: 0 })
    );
}

#[test]
fn the_tempo_is_shared_between_sources() {
    let sources = vec![
        source("main", "tempo: 90\nuse: other\na: {C:q}"),
        source("other", "b: {C:q}\ntempo: 45"),
    ];
    let builder = parse_all(&sources).unwrap();
    let tempo_of = |name: &str| match &notes_of(named(&builder, name).1)[0].period.end.terms[0] {
        Duration::Dotted { tempo, .. } => tempo.clone(),
        _ => panic!("no note value"),
    };
    assert_eq!(tempo_of("b"), Number::Decimal("90".to_string()));
    assert_eq!(tempo_of("a"), Number::Decimal("45".to_string()));
    assert_eq!(builder.tempo, Number::Decimal("45".to_string()));
}

#[test]
fn parentheses_may_nest_and_must_close() {
    assert_eq!(link_of("x: (((7)))"), group(group(group(num("7")))));
    assert_eq!(
        fails("x: (((7))"),
        Error {
            kind: ErrorSpec::ExpectedFound(
                Expected::Text(")".to_string()),
                tok(TokenType::Done, "")
            ),
            line: 1
        }
    );
}

#[test]
fn a_source_that_is_missing() {
    let sources = vec![source("main", "\n\nuse: other")];
    assert_eq!(
        parse_all(&sources).err(),
        Some(Error { kind: ErrorSpec::CantOpenFile("other".to_string()), line: 0 })
    );
    assert_eq!(
        Parser::new("nothing", &sources, Builder::new()).err(),
        Some(Error { kind: ErrorSpec::CantOpenFile("nothing".to_string()), line: 0 })
    );
}

#[test]
fn an_unmatched_closing_parenthesis() {
    assert_eq!(
        fails("a: 1\n\n)"),
        Error { kind: ErrorSpec::CloseDelimeter(")".to_string()), line: 3 }
    );
    assert_eq!(
        fails(")"),
        Error { kind: ErrorSpec::CloseDelimeter(")".to_string()), line: 1 }
    );
    assert_eq!(
        fails("a: (1))"),
        Error { kind: ErrorSpec::CloseDelimeter(")".to_string()), line: 1 }
    );
    assert_eq!(
        fails("a: ()"),
        Error { kind: ErrorSpec::InvalidDelimeter(")".to_string()), line: 1 }
    );
}

#[test]
fn what_was_expected_and_what_was_found() {
    assert_eq!(
        fails("a: (1 + 2"),
        Error {
            kind: ErrorSpec::ExpectedFound(
                Expected::Text(")".to_string()),
                tok(TokenType::Done, "")
            ),
            line: 1
        }
    );
    assert_eq!(
        fails("use: 5"),
        Error {
            kind: ErrorSpec::ExpectedFound(
                Expected::Kind(TokenType::Id),
                tok(TokenType::Num, "5")
            ),
            line: 1
        }
    );
    assert_eq!(
        fails("tempo 5"),
        Error {
            kind: ErrorSpec::ExpectedFound(
                Expected::Text(":".to_string()),
                tok(TokenType::Num, "5")
            ),
            line: 1
        }
    );
    assert_eq!(
        fails("tempo: fast"),
        Error {
            kind: ErrorSpec::ExpectedFound(
                Expected::Kind(TokenType::Num),
                tok(TokenType::Id, "fast")
            ),
            line: 1
        }
    );
    assert_eq!(
        fails("a: {C q}"),
        Error {
            kind: ErrorSpec::ExpectedFound(
                Expected::Text(":".to_string()),
                tok(TokenType::Id, "q")
            ),
            line: 1
        }
    );
    assert_eq!(
        fails("a: {C:1/x}"),
        Error {
            kind: ErrorSpec::ExpectedFound(
                Expected::Kind(TokenType::Num),
                tok(TokenType::Id, "x")
            ),
            line: 1
        }
    );
}

#[test]
fn the_other_errors() {
    assert_eq!(
        fails("a: {x:q}"),
        Error { kind: ErrorSpec::InvalidPitch(tok(TokenType::Id, "x")), line: 1 }
    );
    assert_eq!(
        fails("a: {C:z}"),
        Error { kind: ErrorSpec::DurationQuantifier(tok(TokenType::Id, "z")), line: 1 }
    );
    assert_eq!(
        fails("a: {C:pi/2}"),
        Error { kind: ErrorSpec::DurationQuantifier(tok(TokenType::Num, "pi")), line: 1 }
    );
    assert_eq!(
        fails("a: {C:1/pi}"),
        Error { kind: ErrorSpec::DurationQuantifier(tok(TokenType::Num, "pi")), line: 1 }
    );
    assert_eq!(
        fails("a: end"),
        Error { kind: ErrorSpec::InvalidKeyword("end".to_string()), line: 1 }
    );
    assert_eq!(
        fails("a: 1 + }"),
        Error { kind: ErrorSpec::InvalidDelimeter("}".to_string()), line: 1 }
    );
    assert_eq!(fails("a: 1 +"), Error { kind: ErrorSpec::UnexpectedEndOfFile, line: 1 });
    assert_eq!(fails("a:"), Error { kind: ErrorSpec::UnexpectedEndOfFile, line: 1 });
    assert_eq!(
        fails("a: ."),
        Error { kind: ErrorSpec::InvalidTerm(tok(TokenType::Misc, ".")), line: 1 }
    );
    assert_eq!(
        fails("a: ?"),
        Error { kind: ErrorSpec::InvalidTerm(tok(TokenType::Unknown, "?")), line: 1 }
    );
    assert_eq!(
        fails("a: *"),
        Error { kind: ErrorSpec::InvalidTerm(tok(TokenType::Operator, "*")), line: 1 }
    );
    assert_eq!(
        fails("a: 1\na: 2"),
        Error { kind: ErrorSpec::ChainRedeclaration("a".to_string()), line: 2 }
    );
}

#[test]
fn nothing_is_parsed_past_the_first_error() {
    assert_eq!(
        fails("a: !0\nb: ?"),
        Error { kind: ErrorSpec::ZeroBacklink, line: 1 }
    );
}
