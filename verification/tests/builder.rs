use sonny::builder::{Binding, Builder, ChainHandle, Scope};
use sonny::error::{Error, ErrorSpec};
use sonny::expr::{ChainName, Expression, Operand};
use sonny::value::{Note, Number, Period, Time};

fn one() -> Expression {
    Expression::operand(Operand::Num(Number::Decimal("1".to_string())))
}

fn notes() -> Expression {
    Expression::operand(Operand::Notes(vec![Note {
        pitch: Number::Zero,
        period: Period { start: Time::zero(), end: Time::zero() },
    }]))
}

#[test]
fn chains_take_their_place_in_order() {
    let mut b = Builder::new();
    assert_eq!(b.new_chain(Some("a".to_string()), 1), Ok(ChainName(0)));
    assert_eq!(b.new_chain(None, 1), Ok(ChainName(1)));
    b.new_expression(one());
    b.play_chain();
    b.finalize_chain();
    b.new_expression(notes());
    b.finalize_chain();
    assert_eq!(b.chains().len(), 2);
    assert_eq!(b.chains()[0].links, vec![notes()]);
    assert!(!b.chains()[0].play);
    assert_eq!(b.chains()[1].links, vec![one()]);
    assert!(b.chains()[1].play);
    assert_eq!(b.scope_depth(), 1);
}

#[test]
fn a_name_cannot_be_declared_twice_in_one_scope() {
    let mut b = Builder::new();
    b.new_chain(Some("a".to_string()), 1).unwrap();
    b.finalize_chain();
    assert_eq!(
        b.new_chain(Some("a".to_string()), 7),
        Err(Error { kind: ErrorSpec::ChainRedeclaration("a".to_string()), line: 7 })
    );
    assert_eq!(b.chains().len(), 1);
    assert_eq!(b.new_chain(Some("b".to_string()), 8), Ok(ChainName(1)));
    assert_eq!(b.new_chain(Some("a".to_string()), 9), Ok(ChainName(2)));
}

#[test]
fn names_are_found_innermost_first() {
    let mut b = Builder::new();
    assert_eq!(b.find_chain("a"), None);
    b.new_chain(Some("a".to_string()), 1).unwrap();
    b.new_expression(one());
    assert_eq!(b.find_chain("a"), None);
    b.finalize_chain();
    assert_eq!(b.find_chain("a"), Some(ChainHandle { name: ChainName(0), generic: true }));
    b.new_chain(Some("outer".to_string()), 2).unwrap();
    b.new_chain(Some("a".to_string()), 2).unwrap();
    b.new_expression(notes());
    b.finalize_chain();
    assert_eq!(b.find_chain("a"), Some(ChainHandle { name: ChainName(2), generic: false }));
    b.finalize_chain();
    assert_eq!(b.find_chain("a"), Some(ChainHandle { name: ChainName(0), generic: true }));
    assert_eq!(
        b.find_chain("outer::a"),
        Some(ChainHandle { name: ChainName(2), generic: false })
    );
    assert_eq!(b.find_chain("outer"), Some(ChainHandle { name: ChainName(1), generic: true }));
}

#[test]
fn a_chain_without_links_is_generic() {
    let mut b = Builder::new();
    b.new_chain(Some("a".to_string()), 1).unwrap();
    b.finalize_chain();
    assert_eq!(b.find_chain("a"), Some(ChainHandle { name: ChainName(0), generic: true }));
    assert!(b.chains()[0].is_generic());
}

#[test]
fn scopes_can_be_set_aside() {
    let mut b = Builder::new();
    b.new_chain(Some("a".to_string()), 1).unwrap();
    b.finalize_chain();
    let scope = b.pop_scope().unwrap();
    assert_eq!(scope.lookup("a"), Some(ChainName(0)));
    assert_eq!(scope.lookup("b"), None);
    assert_eq!(b.find_chain("a"), None);
    assert_eq!(b.pop_scope(), None);
    b.push_scope(scope);
    assert_eq!(b.find_chain("a").map(|h| h.name), Some(ChainName(0)));
    b.push_scope(Scope {
        bindings: vec![
            Binding { name: "a".to_string(), chain: ChainName(5) },
            Binding { name: "a".to_string(), chain: ChainName(0) },
        ],
    });
    assert_eq!(b.find_chain("a").map(|h| h.name), Some(ChainName(0)));
    b.push_scope(Scope { bindings: vec![Binding { name: "a".to_string(), chain: ChainName(5) }] });
    assert_eq!(b.find_chain("a"), None);
}

#[test]
fn nothing_happens_without_an_open_chain() {
    let mut b = Builder::new();
    b.new_expression(one());
    b.play_chain();
    b.finalize_chain();
    assert_eq!(b.chains().len(), 0);
    assert_eq!(b.scope_depth(), 1);
}

#[test]
fn settings() {
    let mut b = Builder::new();
    assert_eq!(b.tempo(), Number::Decimal("120".to_string()));
    b.set_tempo(Number::Decimal("90".to_string()));
    b.set_end_time(Number::Decimal("4".to_string()));
    assert_eq!(b.tempo, Number::Decimal("90".to_string()));
    assert_eq!(b.end_time, Number::Decimal("4".to_string()));
}
