//! Every production moves forward: behind it there is no more left to parse
//! than before it, the state is still one that a parse can reach, as many
//! parentheses are open as before, and a backlink that it has parsed goes
//! back at least one sample.
//!
//! The productions of the grammar that call themselves look at how much is
//! left behind the productions that they call, and would stop with an error
//! if it were more than before. What is proved here shows that this never
//! happens.

use vstd::prelude::*;
use vstd::string::*;
use crate::expr::{ExpressionView, OperandView};
use crate::grammar::{
    advance, backlink, behind_name, below, binary, binary_of, binary_tail, chain,
    chain_declaration, chain_tail, construct, dots, duration, exp_un, expression, is_named,
    lemma_advance, lemma_literals, lemma_operators, link, mas, mat, measure, more_notes, note,
    note_value, notes, peek, pitch, qualified_name, rank, real_number, reference, state_ok, term,
    unary_of, SourceView, State, Tier,
};
use crate::lexer::TokenType;
use crate::value::NoteView;

verus! {

/// `to` may lie behind `from`: no more is left to parse, a state that a
/// parse can reach has stayed one, and as many parentheses are open.
pub open spec fn onward(from: State, to: State) -> bool {
    &&& measure(to) <= measure(from)
    &&& state_ok(from) ==> state_ok(to)
    &&& to.paren_level == from.paren_level
}

/// `to` lies behind `from`, and less is left to parse where `from` is a state
/// that a parse can reach.
pub open spec fn forward(from: State, to: State) -> bool {
    &&& onward(from, to)
    &&& state_ok(from) ==> measure(to) < measure(from)
}

/// Neither the builder nor the time cursor has changed.
pub open spec fn quiet(from: State, to: State) -> bool {
    to.builder == from.builder && to.cursor == from.cursor
}

/// Every backlink in the operand goes back at least one sample.
pub open spec fn sound_operand(o: OperandView) -> bool
    decreases o,
{
    match o {
        OperandView::BackLink(n) => n >= 1,
        OperandView::Expression(e) => sound(*e),
        _ => true,
    }
}

/// Every backlink in the expression goes back at least one sample.
pub open spec fn sound(e: ExpressionView) -> bool
    decreases e,
{
    match e {
        ExpressionView::Unary(_, a) => sound_operand(a),
        ExpressionView::Binary(_, a, b) => sound_operand(a) && sound_operand(b),
        ExpressionView::Operand(a) => sound_operand(a),
    }
}

/// The notes lie end to end: each ends one duration behind its start, and the
/// next starts where it ends.
pub open spec fn end_to_end(all: Seq<NoteView>) -> bool {
    &&& forall|i: int|
        0 <= i < all.len() ==> (#[trigger] all[i]).end.len() == all[i].start.len() + 1
            && all[i].end.drop_last() == all[i].start
    &&& forall|i: int| 0 <= i < all.len() - 1 ==> (#[trigger] all[i + 1]).start == all[i].end
}

/// The texts that the grammar expects by name, other than the parentheses,
/// are not parentheses.
pub proof fn lemma_no_parenthesis()
    ensures
        ":"@ != "("@ && ":"@ != ")"@,
        "!"@ != "("@ && "!"@ != ")"@,
        "|"@ != "("@ && "|"@ != ")"@,
        "}"@ != "("@ && "}"@ != ")"@,
        "("@ != ")"@,
{
    reveal_strlit(":");
    reveal_strlit("!");
    reveal_strlit("|");
    reveal_strlit("}");
    reveal_strlit("(");
    reveal_strlit(")");
    assert(":"@[0] == ':' && "!"@[0] == '!' && "|"@[0] == '|' && "}"@[0] == '}' && "("@[0] == '('
        && ")"@[0] == ')');
}

/// Moving to the next token, and expecting a token that is no parenthesis.
pub proof fn lemma_step(s: State, kind: TokenType, text: Seq<char>)
    ensures
        onward(s, advance(s)) && quiet(s, advance(s)),
        onward(s, peek(s)) && quiet(s, peek(s)),
        s.look.1.len() > 0 ==> measure(advance(s)) < measure(s),
        state_ok(s) && s.look.0 != TokenType::Done ==> measure(advance(s)) < measure(s),
        mat(s, kind) is Ok ==> mat(s, kind)->Ok_0.0 == advance(s),
        mas(s, text) is Ok && text != "("@ && text != ")"@ ==> mas(s, text)->Ok_0.0 == advance(s)
            && s.look.1 == text,
{
    lemma_advance(s);
}

/// A real number.
pub proof fn lemma_real_number(s: State)
    ensures
        real_number(s) is Ok ==> forward(s, real_number(s)->Ok_0.0) && quiet(
            s,
            real_number(s)->Ok_0.0,
        ),
{
    lemma_literals();
    lemma_step(s, TokenType::Num, "."@);
    lemma_step(advance(s), TokenType::Num, "."@);
    lemma_step(advance(advance(s)), TokenType::Num, "."@);
    lemma_step(peek(s), TokenType::Num, "."@);
    lemma_step(advance(peek(s)), TokenType::Num, "."@);
}

/// A pitch.
pub proof fn lemma_pitch(s: State)
    ensures
        pitch(s) is Ok ==> forward(s, pitch(s)->Ok_0.0) && quiet(s, pitch(s)->Ok_0.0),
{
    lemma_literals();
    lemma_real_number(s);
    lemma_step(s, TokenType::Num, "_"@);
}

/// Augmentation dots.
pub proof fn lemma_dots(s: State)
    ensures
        onward(s, dots(s).0) && quiet(s, dots(s).0),
    decreases measure(s),
{
    lemma_literals();
    lemma_step(s, TokenType::Num, "."@);
    if s.look.1 == "."@ {
        lemma_dots(advance(s));
    }
}

/// A duration.
pub proof fn lemma_duration(s: State)
    ensures
        duration(s) is Ok ==> forward(s, duration(s)->Ok_0.0) && quiet(s, duration(s)->Ok_0.0),
{
    lemma_literals();
    lemma_step(s, TokenType::Num, "."@);
    let s1 = peek(s);
    lemma_step(s1, TokenType::Num, "."@);
    lemma_step(advance(s1), TokenType::Num, "."@);
    lemma_step(advance(advance(s1)), TokenType::Num, "."@);
    lemma_real_number(s1);
    lemma_dots(advance(s));
    if s.look.0 != TokenType::Num && note_value(s.look.1) is Some {
        assert(s.look.1.len() > 0);
    }
}

/// A note: it starts at the cursor and ends one duration behind it, where
/// the cursor then is.
pub proof fn lemma_note(s: State)
    ensures
        note(s) is Ok ==> ({
            let (s1, n) = note(s)->Ok_0;
            &&& forward(s, s1)
            &&& s1.builder == s.builder
            &&& n.start == s.cursor
            &&& n.end == s1.cursor
            &&& n.end.len() == n.start.len() + 1
            &&& n.end.drop_last() == n.start
        }),
{
    lemma_literals();
    lemma_no_parenthesis();
    lemma_pitch(s);
    if pitch(s) is Ok {
        let s1 = pitch(s)->Ok_0.0;
        lemma_step(s1, TokenType::Num, ":"@);
        if mas(s1, ":"@) is Ok {
            let s2 = mas(s1, ":"@)->Ok_0.0;
            lemma_duration(s2);
            if duration(s2) is Ok {
                let (s3, d) = duration(s2)->Ok_0;
                assert(s3.cursor.push(d).drop_last() =~= s3.cursor);
            }
        }
    }
}

/// The notes behind the first: where the notes so far lie end to end up to
/// the cursor, so do they all.
pub proof fn lemma_more_notes(s: State, sofar: Seq<NoteView>)
    requires
        sofar.len() > 0,
        end_to_end(sofar),
        sofar.last().end == s.cursor,
    ensures
        more_notes(s, sofar) is Ok ==> ({
            let (s1, all) = more_notes(s, sofar)->Ok_0;
            &&& onward(s, s1)
            &&& s1.builder == s.builder
            &&& all.len() >= sofar.len()
            &&& all[0] == sofar[0]
            &&& end_to_end(all)
        }),
    decreases measure(s),
{
    lemma_literals();
    lemma_step(s, TokenType::Num, ","@);
    if s.look.1 == ","@ {
        lemma_note(advance(s));
        if note(advance(s)) is Ok {
            let (s1, n) = note(advance(s))->Ok_0;
            let longer = sofar.push(n);
            assert(end_to_end(longer)) by {
                assert forall|i: int| 0 <= i < longer.len() implies (#[trigger] longer[i]).end.len()
                    == longer[i].start.len() + 1 && longer[i].end.drop_last()
                    == longer[i].start by {
                    if i < sofar.len() {
                        assert(longer[i] == sofar[i]);
                    }
                }
                assert forall|i: int| 0 <= i < longer.len() - 1 implies (#[trigger] longer[i
                    + 1]).start == longer[i].end by {
                    if i + 1 < sofar.len() {
                        assert(longer[i + 1] == sofar[i + 1]);
                        assert(longer[i] == sofar[i]);
                    } else {
                        assert(longer[i] == sofar.last());
                    }
                }
            }
            if measure(s1) <= measure(advance(s)) {
                lemma_more_notes(s1, longer);
            }
        }
    }
}

/// A sequence of notes starts at zero, its notes lie end to end, and the
/// cursor is back at zero behind it.
pub proof fn law_notes(s: State)
    ensures
        notes(s) is Ok ==> ({
            let (s1, all) = notes(s)->Ok_0;
            &&& forward(s, s1)
            &&& s1.builder == s.builder
            &&& all.len() >= 1
            &&& all[0].start == Seq::<crate::value::DurationView>::empty()
            &&& end_to_end(all)
            &&& s1.cursor == Seq::<crate::value::DurationView>::empty()
        }),
{
    let s0 = State { cursor: Seq::empty(), ..s };
    lemma_note(s0);
    if note(s0) is Ok {
        let (s1, n) = note(s0)->Ok_0;
        lemma_more_notes(s1, seq![n]);
    }
}

/// A backlink goes back at least one sample.
pub proof fn lemma_backlink(s: State)
    ensures
        backlink(s) is Ok ==> forward(s, backlink(s)->Ok_0.0) && quiet(s, backlink(s)->Ok_0.0)
            && sound_operand(backlink(s)->Ok_0.1),
{
    lemma_literals();
    lemma_no_parenthesis();
    lemma_step(s, TokenType::Num, "!"@);
    lemma_step(advance(s), TokenType::Num, "!"@);
}

/// The rest of a qualified name.
pub proof fn lemma_qualified_name(s: State, name: Seq<char>)
    ensures
        qualified_name(s, name) is Ok ==> onward(s, qualified_name(s, name)->Ok_0.0) && quiet(
            s,
            qualified_name(s, name)->Ok_0.0,
        ),
    decreases measure(s),
{
    lemma_literals();
    lemma_step(s, TokenType::Id, "::"@);
    lemma_step(advance(s), TokenType::Id, "::"@);
    if s.look.1 == "::"@ && advance(s).look.0 == TokenType::Id {
        lemma_qualified_name(advance(advance(s)), name + "::"@ + advance(s).look.1);
    }
}

/// A reference to a chain.
pub proof fn lemma_reference(s: State)
    requires
        s.look.0 == TokenType::Id,
    ensures
        reference(s) is Ok ==> forward(s, reference(s)->Ok_0.0) && quiet(s, reference(s)->Ok_0.0)
            && sound_operand(reference(s)->Ok_0.1),
{
    lemma_literals();
    lemma_step(s, TokenType::Id, "."@);
    lemma_qualified_name(advance(s), s.look.1);
    if qualified_name(advance(s), s.look.1) is Ok {
        let s1 = qualified_name(advance(s), s.look.1)->Ok_0.0;
        lemma_step(s1, TokenType::Id, "."@);
        lemma_step(advance(s1), TokenType::Id, "."@);
    }
}

/// A term.
pub proof fn lemma_term(s: State)
    ensures
        term(s) is Ok ==> forward(s, term(s)->Ok_0.0) && quiet(s, term(s)->Ok_0.0)
            && sound_operand(term(s)->Ok_0.1),
    decreases measure(s), 0nat,
{
    lemma_literals();
    lemma_no_parenthesis();
    lemma_step(s, TokenType::Num, "!"@);
    lemma_real_number(s);
    lemma_backlink(s);
    if s.look.0 == TokenType::Id {
        lemma_reference(s);
    }
    if s.look.0 == TokenType::Delimeter && s.look.1 == "("@ {
        let inside = State { paren_level: s.paren_level + 1, ..advance(s) };
        lemma_expression(inside);
        if expression(inside) is Ok {
            let (s1, e) = expression(inside)->Ok_0;
            lemma_advance(s1);
            assert(sound_operand(crate::expr::grouped(e)));
        }
    }
}

/// The operations of one operand.
pub proof fn lemma_exp_un(s: State)
    ensures
        exp_un(s) is Ok ==> forward(s, exp_un(s)->Ok_0.0) && quiet(s, exp_un(s)->Ok_0.0) && sound(
            exp_un(s)->Ok_0.1,
        ),
    decreases measure(s), 1nat,
{
    lemma_operators(s.look.1, Tier::Sum);
    lemma_step(s, TokenType::Num, "!"@);
    if unary_of(s.look.1) is Some {
        lemma_exp_un(advance(s));
        if exp_un(advance(s)) is Ok {
            assert(sound_operand(crate::expr::grouped(exp_un(advance(s))->Ok_0.1)));
        }
    } else {
        lemma_term(s);
    }
}

/// An operand of a tier.
pub proof fn lemma_below(tier: Tier, s: State)
    ensures
        below(tier, s) is Ok ==> forward(s, below(tier, s)->Ok_0.0) && quiet(
            s,
            below(tier, s)->Ok_0.0,
        ) && sound(below(tier, s)->Ok_0.1),
    decreases measure(s), rank(tier),
{
    match tier {
        Tier::MinMax => lemma_exp_un(s),
        Tier::Power => lemma_binary(Tier::MinMax, s),
        Tier::Product => lemma_binary(Tier::Power, s),
        Tier::Sum => lemma_binary(Tier::Product, s),
    }
}

/// What follows the left operand on a tier.
pub proof fn lemma_binary_tail(tier: Tier, s: State, left: ExpressionView)
    requires
        sound(left),
    ensures
        binary_tail(tier, s, left) is Ok ==> onward(s, binary_tail(tier, s, left)->Ok_0.0)
            && quiet(s, binary_tail(tier, s, left)->Ok_0.0) && sound(
            binary_tail(tier, s, left)->Ok_0.1,
        ),
    decreases measure(s), rank(tier) + 1,
{
    lemma_literals();
    lemma_operators(s.look.1, tier);
    lemma_step(s, TokenType::Num, "!"@);
    assert(sound_operand(crate::expr::grouped(left)));
    if tier is Power && s.look.1 == "log"@ {
        lemma_binary_tail(
            tier,
            advance(s),
            ExpressionView::Unary(crate::expr::Unary::Logarithm, crate::expr::grouped(left)),
        );
    } else if binary_of(tier, s.look.1) is Some {
        let op = binary_of(tier, s.look.1)->0;
        let right = if tier is Power {
            binary(tier, advance(s))
        } else {
            below(tier, advance(s))
        };
        if tier is Power {
            lemma_binary(tier, advance(s));
        } else {
            lemma_below(tier, advance(s));
        }
        if right is Ok {
            let (s1, r) = right->Ok_0;
            assert(sound_operand(crate::expr::grouped(r)));
            lemma_binary_tail(
                tier,
                s1,
                ExpressionView::Binary(op, crate::expr::grouped(left), crate::expr::grouped(r)),
            );
        }
    }
}

/// An expression of a tier.
pub proof fn lemma_binary(tier: Tier, s: State)
    ensures
        binary(tier, s) is Ok ==> forward(s, binary(tier, s)->Ok_0.0) && quiet(
            s,
            binary(tier, s)->Ok_0.0,
        ) && sound(binary(tier, s)->Ok_0.1),
    decreases measure(s), rank(tier) + 2,
{
    lemma_below(tier, s);
    if below(tier, s) is Ok {
        let (s1, left) = below(tier, s)->Ok_0;
        lemma_binary_tail(tier, s1, left);
    }
}

/// An expression moves forward, changes neither the builder nor the time
/// cursor, leaves as many parentheses open as it found, and holds no backlink
/// of zero samples.
pub proof fn lemma_expression(s: State)
    ensures
        expression(s) is Ok ==> forward(s, expression(s)->Ok_0.0) && quiet(
            s,
            expression(s)->Ok_0.0,
        ) && sound(expression(s)->Ok_0.1),
    decreases measure(s), 18nat,
{
    lemma_binary(Tier::Sum, s);
}

/// A link.
pub proof fn lemma_link(s: State)
    ensures
        link(s) is Ok ==> forward(s, link(s)->Ok_0.0),
    decreases measure(s), 19nat,
{
    lemma_literals();
    lemma_no_parenthesis();
    lemma_step(s, TokenType::Num, "|"@);
    if s.look.1 == "|"@ {
        lemma_chain_declaration(advance(s));
        if chain_declaration(advance(s)) is Ok {
            lemma_step(chain_declaration(advance(s))->Ok_0.0, TokenType::Num, "|"@);
        }
    } else if s.look.1 == "{"@ {
        law_notes(advance(s));
        if notes(advance(s)) is Ok {
            lemma_step(notes(advance(s))->Ok_0.0, TokenType::Num, "}"@);
        }
    } else {
        lemma_expression(s);
    }
}

/// What follows the first link of a chain.
pub proof fn lemma_chain_tail(s: State)
    ensures
        chain_tail(s) is Ok ==> onward(s, chain_tail(s)->Ok_0.0),
    decreases measure(s), 20nat,
{
    lemma_literals();
    lemma_step(s, TokenType::Num, "->"@);
    if s.look.1 == "->"@ {
        let s1 = advance(s);
        lemma_step(s1, TokenType::Num, "out"@);
        if s1.look.1 == "out"@ {
            let s2 = State { builder: crate::builder::play_chain_spec(s1.builder), ..advance(s1) };
            lemma_step(s2, TokenType::Num, ":"@);
            if s2.look.1 == ":"@ {
                lemma_real_number(advance(s2));
                if real_number(advance(s2)) is Ok {
                    let (s3, end) = real_number(advance(s2))->Ok_0;
                    lemma_chain_tail(
                        State {
                            builder: crate::builder::BuilderView { end_time: end, ..s3.builder },
                            ..s3
                        },
                    );
                }
            } else {
                lemma_chain_tail(s2);
            }
        } else {
            lemma_link(s1);
            if link(s1) is Ok {
                lemma_chain_tail(link(s1)->Ok_0.0);
            }
        }
    }
}

/// The body of a chain.
pub proof fn lemma_chain(s: State)
    ensures
        chain(s) is Ok ==> forward(s, chain(s)->Ok_0.0),
    decreases measure(s), 21nat,
{
    lemma_link(s);
    if link(s) is Ok {
        lemma_chain_tail(link(s)->Ok_0.0);
    }
}

/// A chain declaration.
pub proof fn lemma_chain_declaration(s: State)
    ensures
        chain_declaration(s) is Ok ==> forward(s, chain_declaration(s)->Ok_0.0),
    decreases measure(s), 22nat,
{
    lemma_step(s, TokenType::Id, ":"@);
    lemma_step(peek(s), TokenType::Id, ":"@);
    lemma_step(advance(peek(s)), TokenType::Id, ":"@);
    let s1 = behind_name(s);
    let name = if is_named(s) {
        Some(s.look.1)
    } else {
        None
    };
    match crate::builder::new_chain_spec(s1.builder, name, s1.line) {
        Ok((b, _)) => {
            lemma_chain(State { builder: b, ..s1 });
        },
        Err(_) => {},
    }
}

/// One construct of a source leaves less to parse than it found.
pub proof fn lemma_construct(s: State, sources: Seq<SourceView>, depth: nat)
    requires
        s.look.0 != TokenType::Done,
    ensures
        construct(s, sources, depth) is Ok ==> forward(s, construct(s, sources, depth)->Ok_0),
{
    lemma_literals();
    lemma_no_parenthesis();
    lemma_step(s, TokenType::Id, ":"@);
    lemma_step(advance(s), TokenType::Id, ":"@);
    if s.look.1 == "tempo"@ {
        if mas(advance(s), ":"@) is Ok {
            lemma_real_number(mas(advance(s), ":"@)->Ok_0.0);
        }
    } else if s.look.1 == "use"@ {
        if mas(advance(s), ":"@) is Ok {
            let s1 = mas(advance(s), ":"@)->Ok_0.0;
            lemma_step(s1, TokenType::Id, "."@);
            let s2 = advance(s1);
            lemma_step(s2, TokenType::Id, "."@);
            lemma_step(advance(s2), TokenType::Id, "."@);
        }
    } else {
        lemma_chain_declaration(s);
    }
}

/// Every production moves forward. Behind an expression, a chain or a
/// construct of a source there is less left to parse than before it, in a
/// state that a parse can reach; the state is again one that a parse can
/// reach, and as many parentheses are open as before. An expression changes
/// neither the builder nor the time cursor, and every backlink in it goes
/// back at least one sample.
pub proof fn law_progress(s: State, sources: Seq<SourceView>, depth: nat)
    ensures
        expression(s) is Ok ==> forward(s, expression(s)->Ok_0.0) && quiet(
            s,
            expression(s)->Ok_0.0,
        ) && sound(expression(s)->Ok_0.1),
        chain_declaration(s) is Ok ==> forward(s, chain_declaration(s)->Ok_0.0),
        s.look.0 != TokenType::Done && construct(s, sources, depth) is Ok ==> forward(
            s,
            construct(s, sources, depth)->Ok_0,
        ),
{
    lemma_expression(s);
    lemma_chain_declaration(s);
    if s.look.0 != TokenType::Done {
        lemma_construct(s, sources, depth);
    }
}

} // verus!
