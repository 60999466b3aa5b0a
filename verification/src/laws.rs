//! What holds of the grammar whatever the input.

use vstd::prelude::*;
use vstd::string::*;
use crate::builder::{find_chain_spec, lookup, BuilderView, ChainHandle};
use crate::error::{ErrorSpecView, ErrorView};
use crate::expr::{grouped, ExpressionView, OperandView, Property, Unary};
use crate::grammar::{
    advance, backlink, chain_declaration, construct, exp_un, failure, lemma_literals,
    property_of, qualified_name, reference, source, term, unary_of, use_declaration, used,
    without_scope, SourceView, State,
};
use crate::lexer::TokenType;
use crate::progress::{lemma_qualified_name, lemma_step};
use crate::text::count_of;

verus! {

/// The state a number of tokens further on.
pub open spec fn after(s: State, n: nat) -> State
    decreases n,
{
    if n == 0 {
        s
    } else {
        after(advance(s), (n - 1) as nat)
    }
}

/// Operations of one operand, applied one inside the other to an expression,
/// the first of them outermost.
pub open spec fn nested(ops: Seq<Unary>, e: ExpressionView) -> ExpressionView
    decreases ops.len(),
{
    if ops.len() == 0 {
        e
    } else {
        ExpressionView::Unary(ops[0], grouped(nested(ops.skip(1), e)))
    }
}

/// However many operations of one operand stand in a row, they are applied
/// one inside the other, in the order in which they stand, to the expression
/// that follows them; and an error in that expression is the error of the
/// whole.
pub proof fn law_nested_unary(s: State, ops: Seq<Unary>)
    requires
        forall|i: int|
            0 <= i < ops.len() ==> unary_of(#[trigger] after(s, i as nat).look.1) == Some(ops[i]),
    ensures
        exp_un(s) == match exp_un(after(s, ops.len())) {
            Ok((s1, e)) => Ok((s1, nested(ops, e))),
            Err(e) => Err(e),
        },
    decreases ops.len(),
{
    assert(after(s, 0) == s);
    if ops.len() == 0 {
        match exp_un(s) {
            Ok((s1, e)) => {
                assert(nested(ops, e) == e);
            },
            Err(_) => {},
        }
    } else {
        let rest = ops.skip(1);
        assert forall|i: int| 0 <= i < rest.len() implies unary_of(
            #[trigger] after(advance(s), i as nat).look.1,
        ) == Some(rest[i]) by {
            assert(after(s, (i + 1) as nat) == after(advance(s), i as nat));
        }
        law_nested_unary(advance(s), rest);
        assert(after(s, ops.len()) == after(advance(s), rest.len()));
        let first: int = 0;
        assert(unary_of(after(s, first as nat).look.1) == Some(ops[first]));
        match exp_un(after(s, ops.len())) {
            Ok((s1, e)) => {
                assert(nested(ops, e) == ExpressionView::Unary(ops[0], grouped(nested(rest, e))));
                assert(exp_un(advance(s)) == Ok::<(State, ExpressionView), ErrorView>(
                    (s1, nested(rest, e)),
                ));
            },
            Err(_) => {},
        }
    }
}

/// A backlink is `!` and a count: a count of zero is an error, and so is what
/// is no count; any other count is the value, with nothing else consumed.
pub proof fn law_backlink(s: State)
    requires
        s.look.1 == "!"@,
    ensures
        count_of(advance(s).look.1) == Some(0usize) ==> backlink(s) == Err::<
            (State, OperandView),
            ErrorView,
        >(failure(advance(s), ErrorSpecView::ZeroBacklink)),
        count_of(advance(s).look.1) is None ==> backlink(s) == Err::<
            (State, OperandView),
            ErrorView,
        >(failure(advance(s), ErrorSpecView::InvalidBackLink(advance(s).look))),
        count_of(advance(s).look.1) is Some && count_of(advance(s).look.1)->0 > 0 && advance(
            s,
        ).look.0 == TokenType::Num ==> backlink(s) == Ok::<(State, OperandView), ErrorView>(
            (
                advance(advance(s)),
                OperandView::BackLink(count_of(advance(s).look.1)->0 as nat),
            ),
        ),
{
    reveal_strlit("!");
    reveal_strlit("(");
    reveal_strlit(")");
    assert("!"@[0] == '!' && "("@[0] == '(' && ")"@[0] == ')');
    assert(crate::grammar::mas(s, "!"@) == Ok::<(State, ()), ErrorView>((advance(s), ())));
}

/// A property of a chain: where the name resolves to a generic chain, the
/// reference is an error whatever the property; where it resolves to a chain
/// of notes, the reference is the property named.
pub proof fn law_property(s: State, name: Seq<char>, handle: ChainHandle)
    requires
        qualified_name(advance(s), s.look.1) is Ok,
        qualified_name(advance(s), s.look.1)->Ok_0.1 == name,
        qualified_name(advance(s), s.look.1)->Ok_0.0.look.1 == "."@,
        find_chain_spec(s.builder, name) == Some(handle),
    ensures
        ({
            let dot = qualified_name(advance(s), s.look.1)->Ok_0.0;
            let at = advance(dot);
            &&& handle.generic ==> reference(s) == Err::<(State, OperandView), ErrorView>(
                failure(at, ErrorSpecView::PropertyOfGenericChain(handle.name, at.look.1)),
            )
            &&& !handle.generic && property_of(at.look.1) is Some ==> reference(s) == Ok::<
                (State, OperandView),
                ErrorView,
            >((advance(at), OperandView::Property(handle.name, property_of(at.look.1)->0)))
        }),
{
    lemma_step(s, TokenType::Id, "."@);
    lemma_qualified_name(advance(s), s.look.1);
}

/// A closing parenthesis with none open is an error on the line where it
/// stands, wherever a term, a chain or a construct of a source is to begin.
pub proof fn law_unmatched_parenthesis(s: State, sources: Seq<SourceView>, depth: nat)
    requires
        s.look == (TokenType::Delimeter, ")"@),
        s.paren_level == 0,
    ensures
        term(s) == Err::<(State, OperandView), ErrorView>(
            failure(s, ErrorSpecView::CloseDelimeter(")"@)),
        ),
        chain_declaration(s) is Err,
        chain_declaration(s)->Err_0 == failure(s, ErrorSpecView::CloseDelimeter(")"@)),
        construct(s, sources, depth) == Err::<State, ErrorView>(
            failure(s, ErrorSpecView::CloseDelimeter(")"@)),
        ),
{
    lemma_literals();
    reveal_strlit("(");
    reveal_strlit(")");
    reveal_strlit("|");
    reveal_strlit("{");
    reveal_strlit("-");
    reveal_strlit("sin");
    reveal_strlit("cos");
    reveal_strlit("ceil");
    reveal_strlit("floor");
    reveal_strlit("abs");
    reveal_strlit("tempo");
    reveal_strlit("use");
    assert(unary_of(s.look.1) is None);
    assert(term(s) == Err::<(State, OperandView), ErrorView>(
        failure(s, ErrorSpecView::CloseDelimeter(")"@)),
    ));
    assert(exp_un(s) is Err && exp_un(s)->Err_0 == failure(
        s,
        ErrorSpecView::CloseDelimeter(")"@),
    ));
    reveal_with_fuel(crate::grammar::below, 4);
    reveal_with_fuel(crate::grammar::binary, 4);
    let e = failure(s, ErrorSpecView::CloseDelimeter(")"@));
    assert(crate::grammar::binary(crate::grammar::Tier::MinMax, s) is Err
        && crate::grammar::binary(crate::grammar::Tier::MinMax, s)->Err_0 == e);
    assert(crate::grammar::binary(crate::grammar::Tier::Power, s) is Err
        && crate::grammar::binary(crate::grammar::Tier::Power, s)->Err_0 == e);
    assert(crate::grammar::binary(crate::grammar::Tier::Product, s) is Err
        && crate::grammar::binary(crate::grammar::Tier::Product, s)->Err_0 == e);
    assert(crate::grammar::binary(crate::grammar::Tier::Sum, s) is Err && crate::grammar::binary(
        crate::grammar::Tier::Sum,
        s,
    )->Err_0 == e);
    assert(crate::grammar::expression(s) is Err && crate::grammar::expression(s)->Err_0 == e);
    assert(crate::grammar::link(s) is Err && crate::grammar::link(s)->Err_0 == e);
    assert(crate::grammar::chain(s) is Err && crate::grammar::chain(s)->Err_0 == e);
    assert(crate::grammar::behind_name(s) == s);
}

/// A use declaration: the source that it names is parsed with a builder from
/// which the innermost scope has been set aside, so that no name that only
/// that scope has resolves at its start; behind it the scope is back on top
/// of what the used source has left.
pub proof fn law_used_source(s: State, sources: Seq<SourceView>, depth: nat)
    requires
        depth > 0,
        use_declaration(s) is Ok,
        use_declaration(s)->Ok_0.0.builder.scopes.len() > 0,
    ensures
        ({
            let (s1, name) = use_declaration(s)->Ok_0;
            let given = without_scope(s1.builder);
            &&& used(s, sources, depth) == match source(
                sources,
                name,
                given,
                true,
                (depth - 1) as nat,
            ) {
                Ok(b) => Ok(
                    State {
                        builder: BuilderView {
                            scopes: b.scopes.push(s1.builder.scopes.last()),
                            ..b
                        },
                        ..s1
                    },
                ),
                Err(e) => Err(e),
            }
            &&& given.scopes == s1.builder.scopes.drop_last()
            &&& forall|n: Seq<char>|
                lookup(s1.builder.scopes.drop_last(), n) is None ==> (#[trigger] find_chain_spec(
                    given,
                    n,
                )) is None
        }),
{
}

} // verus!
