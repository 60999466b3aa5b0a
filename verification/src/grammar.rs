//! The grammar, as functions of the parser's state.
//!
//! A [`State`] holds what the parser has: the token it looks at, the token it
//! may have peeked at, the characters that the tokenizer has not read, the
//! line, the depth of open parentheses, the time cursor of the note sequence
//! under way, and the builder. Each production is a function from a state to
//! the state behind the production and its value, or to the error that stops
//! the parse.

use vstd::prelude::*;
use vstd::string::*;
use crate::builder::{
    find_chain_spec, finalize_chain_spec, new_chain_spec, new_expression_spec, play_chain_spec,
    BuilderView,
};
use crate::error::{ErrorSpecView, ErrorView, ExpectedView};
use crate::expr::{
    grouped, plain, Binary, ChainName, ExpressionView, OperandView, Property, Unary,
};
use crate::lexer::{is_note, lemma_lex_consumes, lex_spec, run_end, Run, TokenType};
use crate::text::{all_digits, count_of};
use crate::value::{
    pitch_semitones, pitch_text, DurationView, NoteValue, NoteView, NumberView,
};

verus! {

/// What a token holds: its class and its text.
pub type TokenView = (TokenType, Seq<char>);

/// The parser's state.
pub struct State {
    /// The token that the parser looks at.
    pub look: TokenView,
    /// The token behind it, where the parser has peeked.
    pub next: TokenView,
    /// Whether the parser has peeked.
    pub peeked: bool,
    /// The characters that the tokenizer has not read.
    pub rest: Seq<char>,
    /// The line that the tokenizer has reached, counted from 1.
    pub line: nat,
    /// The number of parentheses that are open.
    pub paren_level: nat,
    /// The time cursor of the note sequence under way.
    pub cursor: Seq<DurationView>,
    /// The builder.
    pub builder: BuilderView,
}

/// The state behind a production and its value, or the error that stops the
/// parse.
pub type Parsed<T> = Result<(State, T), ErrorView>;

/// What the tokenizer gives: the end of input has no text and every other
/// token has some; a note literal follows the note grammar; a number is `pi`
/// or made of digits.
pub open spec fn token_ok(t: TokenView) -> bool {
    &&& t.0 != TokenType::Empty
    &&& t.0 == TokenType::Done <==> t.1.len() == 0
    &&& t.0 == TokenType::NoteString ==> is_note(t.1)
    &&& t.0 == TokenType::Num ==> t.1 == "pi"@ || all_digits(t.1)
}

/// A note literal names a pitch, no lower than one semitone below the C of
/// octave 0 and no higher than one above the B of octave 9. The tokenizer
/// knows no note literal that begins with `G`, though `G` names a pitch.
pub proof fn lemma_note_names_pitch(w: Seq<char>)
    requires
        is_note(w),
    ensures
        pitch_text(w),
        w[0] != 'G',
        -1 <= pitch_semitones(w) <= 120,
{
}

/// Every token that the tokenizer returns is as [`token_ok`] says.
pub proof fn lemma_lexed_token_ok(s: Seq<char>)
    ensures
        token_ok(lex_spec(s).token),
    decreases s.len(),
{
    lemma_lex_consumes(s);
    if s.len() == 0 {
    } else if crate::text::is_letter(s[0]) || s[0] == '_' {
        crate::lexer::lemma_run_maximal(s, 1, Run::Word);
    } else if crate::text::decimal_digit(s[0]) {
        crate::lexer::lemma_run_maximal(s, 1, Run::Digits);
        let n = crate::lexer::run_end(s, 1, Run::Digits);
        assert(all_digits(s.take(n)));
    } else if crate::text::is_space(s[0]) {
        lemma_lexed_token_ok(s.skip(1));
    } else if s[0] == '/' && s.len() >= 2 && s[1] == '/' {
        let n = crate::lexer::run_end(s, 2, Run::Comment);
        if 2 <= n < s.len() {
            lemma_lexed_token_ok(s.skip(n + 1));
        }
    } else {
    }
}

/// What a token counts for in the measure of what is left to parse: nothing
/// where it has no text, else one.
pub open spec fn weight(t: TokenView) -> nat {
    if t.1.len() == 0 {
        0
    } else {
        1
    }
}

/// How much is left to parse: the characters unread and the tokens held.
pub open spec fn measure(s: State) -> nat {
    s.rest.len() + weight(s.look) + if s.peeked {
        weight(s.next)
    } else {
        0
    }
}

/// A state that the parser can be in: its tokens are such as the tokenizer
/// gives, and the open parentheses are no more than what was consumed.
pub open spec fn state_ok(s: State) -> bool {
    &&& token_ok(s.look)
    &&& s.peeked ==> token_ok(s.next)
    &&& s.paren_level + measure(s) <= isize::MAX + 2
}

/// The state at the start of a text, with the first token read.
pub open spec fn start(text: Seq<char>, builder: BuilderView) -> State {
    let l = lex_spec(text);
    State {
        look: l.token,
        next: (TokenType::Empty, Seq::empty()),
        peeked: false,
        rest: l.rest,
        line: 1 + l.newlines,
        paren_level: 0,
        cursor: Seq::empty(),
        builder,
    }
}

/// Moving to the next token: the one peeked at, if there is one, else the
/// next that the tokenizer gives.
pub open spec fn advance(s: State) -> State {
    if s.peeked {
        State { look: s.next, peeked: false, ..s }
    } else {
        let l = lex_spec(s.rest);
        State { look: l.token, rest: l.rest, line: s.line + l.newlines, ..s }
    }
}

/// Peeking at the token behind the current one.
pub open spec fn peek(s: State) -> State {
    if s.peeked {
        s
    } else {
        let l = lex_spec(s.rest);
        State { next: l.token, peeked: true, rest: l.rest, line: s.line + l.newlines, ..s }
    }
}

/// Moving on never leaves more to parse, and leaves less where the current
/// token has text; peeking never leaves more. Both keep a state sound.
pub proof fn lemma_advance(s: State)
    ensures
        measure(advance(s)) <= measure(s),
        s.look.1.len() > 0 ==> measure(advance(s)) < measure(s),
        measure(peek(s)) <= measure(s),
        state_ok(s) ==> state_ok(advance(s)) && state_ok(peek(s)),
        advance(s).builder == s.builder && advance(s).cursor == s.cursor && advance(
            s,
        ).paren_level == s.paren_level,
        peek(s).builder == s.builder && peek(s).cursor == s.cursor && peek(s).paren_level
            == s.paren_level && peek(s).look == s.look && peek(s).peeked,
{
    lemma_lex_consumes(s.rest);
    lemma_lexed_token_ok(s.rest);
}

/// The error of the given kind, on the line that the state has reached.
pub open spec fn failure(s: State, kind: ErrorSpecView) -> ErrorView {
    ErrorView { kind, line: s.line }
}

/// Expecting a token of a class: moves on where the current token has it.
pub open spec fn mat(s: State, kind: TokenType) -> Parsed<()> {
    if s.look.0 == kind {
        Ok((advance(s), ()))
    } else {
        Err(failure(s, ErrorSpecView::ExpectedFound(ExpectedView::Kind(kind), s.look)))
    }
}

/// Expecting a text: moves on where the current token has it. An opening
/// parenthesis adds to the depth and a closing one takes from it; a closing
/// one at depth zero is an error.
pub open spec fn mas(s: State, text: Seq<char>) -> Parsed<()> {
    if s.look.1 != text {
        Err(failure(s, ErrorSpecView::ExpectedFound(ExpectedView::Text(text), s.look)))
    } else if text == "("@ {
        Ok((State { paren_level: s.paren_level + 1, ..advance(s) }, ()))
    } else if text == ")"@ {
        if s.paren_level > 0 {
            Ok((State { paren_level: (s.paren_level - 1) as nat, ..advance(s) }, ()))
        } else {
            Err(failure(s, ErrorSpecView::CloseDelimeter(text)))
        }
    } else {
        Ok((advance(s), ()))
    }
}

/// The digits that stand for pi.
pub open spec fn pi_text() -> Seq<char> {
    "3.14159265358979323846"@
}

/// A real number: `pi`; or digits, then optionally a point, then optionally
/// more digits; or a point followed by digits. The value is the text as
/// written.
pub open spec fn real_number(s: State) -> Parsed<NumberView> {
    if s.look.1 == "pi"@ {
        Ok((advance(s), NumberView::Decimal(pi_text())))
    } else if s.look.0 == TokenType::Num {
        let s1 = advance(s);
        if s1.look.1 == "."@ {
            let s2 = advance(s1);
            if s2.look.0 == TokenType::Num {
                Ok((advance(s2), NumberView::Decimal(s.look.1 + s1.look.1 + s2.look.1)))
            } else {
                Ok((s2, NumberView::Decimal(s.look.1 + s1.look.1)))
            }
        } else {
            Ok((s1, NumberView::Decimal(s.look.1)))
        }
    } else if s.look.1 == "."@ && peek(s).next.0 == TokenType::Num {
        let s1 = advance(peek(s));
        Ok((advance(s1), NumberView::Decimal(s.look.1 + s1.look.1)))
    } else if s.look.1 == "."@ {
        Err(
            failure(
                peek(s),
                ErrorSpecView::ExpectedFound(ExpectedView::Kind(TokenType::Num), s.look),
            ),
        )
    } else {
        Err(failure(s, ErrorSpecView::ExpectedFound(ExpectedView::Kind(TokenType::Num), s.look)))
    }
}

/// The texts that the grammar names have at least one character each.
pub proof fn lemma_literals()
    ensures
        "."@.len() == 1,
        ","@.len() == 1,
        ":"@.len() == 1,
        "::"@.len() == 2,
        "!"@.len() == 1,
        "("@.len() == 1,
        ")"@.len() == 1,
        "{"@.len() == 1,
        "}"@.len() == 1,
        "|"@.len() == 1,
        "->"@.len() == 2,
        "_"@.len() == 1,
        "-"@.len() == 1,
        "+"@.len() == 1,
        "*"@.len() == 1,
        "/"@.len() == 1,
        "%"@.len() == 1,
        "^"@.len() == 1,
        "pi"@.len() == 2,
        "sin"@.len() == 3,
        "cos"@.len() == 3,
        "ceil"@.len() == 4,
        "floor"@.len() == 5,
        "abs"@.len() == 3,
        "log"@.len() == 3,
        "min"@.len() == 3,
        "max"@.len() == 3,
        "out"@.len() == 3,
        "use"@.len() == 3,
        "tempo"@.len() == 5,
        "time"@.len() == 4,
        "w"@.len() == 1,
        "h"@.len() == 1,
        "q"@.len() == 1,
        "e"@.len() == 1,
        "s"@.len() == 1,
        "ts"@.len() == 2,
{
    reveal_strlit(".");
    reveal_strlit(",");
    reveal_strlit(":");
    reveal_strlit("::");
    reveal_strlit("!");
    reveal_strlit("(");
    reveal_strlit(")");
    reveal_strlit("{");
    reveal_strlit("}");
    reveal_strlit("|");
    reveal_strlit("->");
    reveal_strlit("_");
    reveal_strlit("-");
    reveal_strlit("+");
    reveal_strlit("*");
    reveal_strlit("/");
    reveal_strlit("%");
    reveal_strlit("^");
    reveal_strlit("pi");
    reveal_strlit("sin");
    reveal_strlit("cos");
    reveal_strlit("ceil");
    reveal_strlit("floor");
    reveal_strlit("abs");
    reveal_strlit("log");
    reveal_strlit("min");
    reveal_strlit("max");
    reveal_strlit("out");
    reveal_strlit("use");
    reveal_strlit("tempo");
    reveal_strlit("time");
    reveal_strlit("w");
    reveal_strlit("h");
    reveal_strlit("q");
    reveal_strlit("e");
    reveal_strlit("s");
    reveal_strlit("ts");
}

/// The error that stands where a production would leave more to parse than it
/// was given. No production does: see [`crate::progress`].
pub open spec fn stuck(s: State) -> ErrorView {
    failure(s, ErrorSpecView::UnexpectedEndOfFile)
}

/// A pitch: a note literal, which gives its semitones; a real number, which
/// gives itself as a frequency; or `_`, a rest, which gives zero.
pub open spec fn pitch(s: State) -> Parsed<NumberView> {
    if s.look.0 == TokenType::NoteString {
        Ok((advance(s), NumberView::Tone(pitch_semitones(s.look.1))))
    } else if s.look.0 == TokenType::Num {
        real_number(s)
    } else if s.look.1 == "_"@ {
        Ok((advance(s), NumberView::Zero))
    } else {
        Err(failure(s, ErrorSpecView::InvalidPitch(s.look)))
    }
}

/// Augmentation dots: as many full stops as follow one another.
pub open spec fn dots(s: State) -> (State, nat)
    decreases measure(s),
{
    if s.look.1 == "."@ {
        proof {
            lemma_literals();
            lemma_advance(s);
        }
        let (s1, n) = dots(advance(s));
        (s1, n + 1)
    } else {
        (s, 0)
    }
}

/// The note value that a word names.
pub open spec fn note_value(text: Seq<char>) -> Option<NoteValue> {
    if text == "w"@ {
        Some(NoteValue::Whole)
    } else if text == "h"@ {
        Some(NoteValue::Half)
    } else if text == "q"@ {
        Some(NoteValue::Quarter)
    } else if text == "e"@ {
        Some(NoteValue::Eighth)
    } else if text == "s"@ {
        Some(NoteValue::Sixteenth)
    } else if text == "ts"@ {
        Some(NoteValue::ThirtySecond)
    } else {
        None
    }
}

/// A duration: a fraction `n/m` of a whole note; a real number of seconds; or
/// a note value with its dots. A fraction and a note value take the tempo that
/// holds where they stand.
pub open spec fn duration(s: State) -> Parsed<DurationView> {
    let tempo = s.builder.tempo;
    if s.look.0 == TokenType::Num {
        let s1 = peek(s);
        if s1.next.1 == "/"@ {
            let s2 = advance(advance(s1));
            if s.look.1 == "pi"@ {
                Err(failure(s1, ErrorSpecView::DurationQuantifier(s.look)))
            } else if s2.look.0 != TokenType::Num {
                Err(
                    failure(
                        s2,
                        ErrorSpecView::ExpectedFound(
                            ExpectedView::Kind(TokenType::Num),
                            s2.look,
                        ),
                    ),
                )
            } else if s2.look.1 == "pi"@ {
                Err(failure(s2, ErrorSpecView::DurationQuantifier(s2.look)))
            } else {
                Ok(
                    (
                        advance(s2),
                        DurationView::Fraction {
                            numerator: s.look.1,
                            denominator: s2.look.1,
                            tempo,
                        },
                    ),
                )
            }
        } else {
            match real_number(s1) {
                Ok((s2, seconds)) => Ok((s2, DurationView::Seconds(seconds))),
                Err(e) => Err(e),
            }
        }
    } else {
        match note_value(s.look.1) {
            Some(value) => {
                let (s1, n) = dots(advance(s));
                Ok((s1, DurationView::Dotted { value, dots: n, tempo }))
            },
            None => Err(failure(s, ErrorSpecView::DurationQuantifier(s.look))),
        }
    }
}

/// A note: a pitch, a colon and a duration. The note fills the time from the
/// cursor to the cursor and the duration, and the cursor moves to its end.
pub open spec fn note(s: State) -> Parsed<NoteView> {
    match pitch(s) {
        Err(e) => Err(e),
        Ok((s1, p)) => match mas(s1, ":"@) {
            Err(e) => Err(e),
            Ok((s2, _)) => match duration(s2) {
                Err(e) => Err(e),
                Ok((s3, d)) => Ok(
                    (
                        State { cursor: s3.cursor.push(d), ..s3 },
                        NoteView { pitch: p, start: s3.cursor, end: s3.cursor.push(d) },
                    ),
                ),
            },
        },
    }
}

/// The notes that follow the first one, each behind a comma.
pub open spec fn more_notes(s: State, sofar: Seq<NoteView>) -> Parsed<Seq<NoteView>>
    decreases measure(s),
{
    if s.look.1 == ","@ {
        proof {
            lemma_literals();
            lemma_advance(s);
        }
        match note(advance(s)) {
            Err(e) => Err(e),
            Ok((s1, n)) => if measure(s1) <= measure(advance(s)) {
                more_notes(s1, sofar.push(n))
            } else {
                Err(stuck(s1))
            },
        }
    } else {
        Ok((s, sofar))
    }
}

/// A sequence of notes, separated by commas. The time cursor starts at zero
/// and is back at zero behind the sequence.
pub open spec fn notes(s: State) -> Parsed<Seq<NoteView>> {
    match note(State { cursor: Seq::empty(), ..s }) {
        Err(e) => Err(e),
        Ok((s1, n)) => match more_notes(s1, seq![n]) {
            Err(e) => Err(e),
            Ok((s2, all)) => Ok((State { cursor: Seq::empty(), ..s2 }, all)),
        },
    }
}

/// A backlink: `!` and a count of samples, which is not zero.
pub open spec fn backlink(s: State) -> Parsed<OperandView> {
    match mas(s, "!"@) {
        Err(e) => Err(e),
        Ok((s1, _)) => match count_of(s1.look.1) {
            None => Err(failure(s1, ErrorSpecView::InvalidBackLink(s1.look))),
            Some(n) => if n == 0 {
                Err(failure(s1, ErrorSpecView::ZeroBacklink))
            } else {
                match mat(s1, TokenType::Num) {
                    Err(e) => Err(e),
                    Ok((s2, _)) => Ok((s2, OperandView::BackLink(n as nat))),
                }
            },
        },
    }
}

/// The rest of a qualified name: any number of `::` and an identifier.
pub open spec fn qualified_name(s: State, name: Seq<char>) -> Parsed<Seq<char>>
    decreases measure(s),
{
    if s.look.1 == "::"@ {
        let s1 = advance(s);
        if s1.look.0 == TokenType::Id {
            proof {
                lemma_literals();
                lemma_advance(s);
                lemma_advance(s1);
            }
            qualified_name(advance(s1), name + "::"@ + s1.look.1)
        } else {
            Err(
                failure(
                    s1,
                    ErrorSpecView::ExpectedFound(ExpectedView::Kind(TokenType::Id), s1.look),
                ),
            )
        }
    } else {
        Ok((s, name))
    }
}

/// The property that a word names.
pub open spec fn property_of(text: Seq<char>) -> Option<Property> {
    if text == "start"@ {
        Some(Property::Start)
    } else if text == "end"@ {
        Some(Property::End)
    } else if text == "dur"@ {
        Some(Property::Duration)
    } else {
        None
    }
}

/// A reference to a chain: a name, qualified or not, which must resolve; then
/// optionally a full stop and a property, which only a chain of notes has.
pub open spec fn reference(s: State) -> Parsed<OperandView> {
    match qualified_name(advance(s), s.look.1) {
        Err(e) => Err(e),
        Ok((s1, name)) => match find_chain_spec(s1.builder, name) {
            None => Err(failure(s1, ErrorSpecView::CantFindChain(name))),
            Some(handle) => if s1.look.1 == "."@ {
                let s2 = advance(s1);
                if handle.generic {
                    Err(
                        failure(
                            s2,
                            ErrorSpecView::PropertyOfGenericChain(handle.name, s2.look.1),
                        ),
                    )
                } else {
                    match property_of(s2.look.1) {
                        Some(p) => Ok((advance(s2), OperandView::Property(handle.name, p))),
                        None => Err(failure(s2, ErrorSpecView::ExpectedNotesProperty(s2.look))),
                    }
                }
            } else {
                Ok((s1, OperandView::Id(handle.name)))
            },
        },
    }
}

/// The operation of one operand that a word names.
pub open spec fn unary_of(text: Seq<char>) -> Option<Unary> {
    if text == "-"@ {
        Some(Unary::Negate)
    } else if text == "sin"@ {
        Some(Unary::Sine)
    } else if text == "cos"@ {
        Some(Unary::Cosine)
    } else if text == "ceil"@ {
        Some(Unary::Ceiling)
    } else if text == "floor"@ {
        Some(Unary::Floor)
    } else if text == "abs"@ {
        Some(Unary::AbsoluteValue)
    } else {
        None
    }
}

/// The tiers of operations of two operands, from the one that binds most.
#[derive(Debug, Clone, Copy, PartialEq, Eq, Structural)]
pub enum Tier {
    /// `min` and `max`.
    MinMax,
    /// `^`, and `log` behind its operand.
    Power,
    /// `*`, `/` and `%`.
    Product,
    /// `+` and `-`.
    Sum,
}

/// The place of a tier in the order of the productions.
pub open spec fn rank(tier: Tier) -> nat {
    match tier {
        Tier::MinMax => 2,
        Tier::Power => 6,
        Tier::Product => 10,
        Tier::Sum => 14,
    }
}

/// The operation that a word names on a tier.
pub open spec fn binary_of(tier: Tier, text: Seq<char>) -> Option<Binary> {
    match tier {
        Tier::MinMax => if text == "min"@ {
            Some(Binary::Min)
        } else if text == "max"@ {
            Some(Binary::Max)
        } else {
            None
        },
        Tier::Power => if text == "^"@ {
            Some(Binary::Power)
        } else {
            None
        },
        Tier::Product => if text == "*"@ {
            Some(Binary::Multiply)
        } else if text == "/"@ {
            Some(Binary::Divide)
        } else if text == "%"@ {
            Some(Binary::Remainder)
        } else {
            None
        },
        Tier::Sum => if text == "+"@ {
            Some(Binary::Add)
        } else if text == "-"@ {
            Some(Binary::Subtract)
        } else {
            None
        },
    }
}

/// A word that names an operation has text.
pub proof fn lemma_operators(text: Seq<char>, tier: Tier)
    ensures
        unary_of(text) is Some ==> text.len() > 0,
        binary_of(tier, text) is Some ==> text.len() > 0,
{
    lemma_literals();
}

/// A term: a number; `time`; a reference to a chain; a backlink; an
/// expression in parentheses; or a note literal, which gives its pitch. A
/// closing parenthesis where none is open is an error of its own.
pub open spec fn term(s: State) -> Parsed<OperandView>
    decreases measure(s), 0nat,
{
    match s.look.0 {
        TokenType::Num => match real_number(s) {
            Ok((s1, n)) => Ok((s1, OperandView::Num(n))),
            Err(e) => Err(e),
        },
        TokenType::Keyword => if s.look.1 == "time"@ {
            Ok((advance(s), OperandView::Time))
        } else {
            Err(failure(s, ErrorSpecView::InvalidKeyword(s.look.1)))
        },
        TokenType::Id => reference(s),
        TokenType::Misc => if s.look.1 == "!"@ {
            backlink(s)
        } else {
            Err(failure(s, ErrorSpecView::InvalidTerm(s.look)))
        },
        TokenType::Delimeter => if s.look.1 == "("@ {
            proof {
                lemma_literals();
                lemma_advance(s);
            }
            match expression(State { paren_level: s.paren_level + 1, ..advance(s) }) {
                Err(e) => Err(e),
                Ok((s1, e)) => match mas(s1, ")"@) {
                    Err(e) => Err(e),
                    Ok((s2, _)) => Ok((s2, grouped(e))),
                },
            }
        } else if s.look.1 == ")"@ && s.paren_level == 0 {
            Err(failure(s, ErrorSpecView::CloseDelimeter(s.look.1)))
        } else {
            Err(failure(s, ErrorSpecView::InvalidDelimeter(s.look.1)))
        },
        TokenType::NoteString => Ok(
            (advance(s), OperandView::Num(NumberView::Tone(pitch_semitones(s.look.1)))),
        ),
        TokenType::Done => Err(failure(s, ErrorSpecView::UnexpectedEndOfFile)),
        _ => Err(failure(s, ErrorSpecView::InvalidTerm(s.look))),
    }
}

/// The operations of one operand, each before its operand: `-`, `sin`, `cos`,
/// `ceil`, `floor`, `abs`, as many as stand in a row; then a term.
pub open spec fn exp_un(s: State) -> Parsed<ExpressionView>
    decreases measure(s), 1nat,
{
    match unary_of(s.look.1) {
        Some(op) => {
            proof {
                lemma_operators(s.look.1, Tier::Sum);
                lemma_advance(s);
            }
            match exp_un(advance(s)) {
                Err(e) => Err(e),
                Ok((s1, e)) => Ok((s1, ExpressionView::Unary(op, grouped(e)))),
            }
        },
        None => match term(s) {
            Err(e) => Err(e),
            Ok((s1, t)) => Ok((s1, plain(t))),
        },
    }
}

/// What stands on either side of an operation of a tier: an expression of the
/// tier that binds more.
pub open spec fn below(tier: Tier, s: State) -> Parsed<ExpressionView>
    decreases measure(s), rank(tier),
{
    match tier {
        Tier::MinMax => exp_un(s),
        Tier::Power => binary(Tier::MinMax, s),
        Tier::Product => binary(Tier::Power, s),
        Tier::Sum => binary(Tier::Product, s),
    }
}

/// What follows the left operand on a tier: as long as an operation of the
/// tier stands there, it is applied to what was parsed so far and to the
/// operand on its right. On the tier of `^` the right operand is an expression
/// of the same tier, and `log` is applied to what was parsed so far.
pub open spec fn binary_tail(tier: Tier, s: State, left: ExpressionView) -> Parsed<ExpressionView>
    decreases measure(s), rank(tier) + 1,
{
    if tier is Power && s.look.1 == "log"@ {
        proof {
            lemma_literals();
            lemma_advance(s);
        }
        binary_tail(tier, advance(s), ExpressionView::Unary(Unary::Logarithm, grouped(left)))
    } else {
        match binary_of(tier, s.look.1) {
            None => Ok((s, left)),
            Some(op) => {
                proof {
                    lemma_operators(s.look.1, tier);
                    lemma_advance(s);
                }
                let right = if tier is Power {
                    binary(tier, advance(s))
                } else {
                    below(tier, advance(s))
                };
                match right {
                    Err(e) => Err(e),
                    Ok((s1, r)) => if measure(s1) <= measure(advance(s)) {
                        binary_tail(tier, s1, ExpressionView::Binary(op, grouped(left), grouped(r)))
                    } else {
                        Err(stuck(s1))
                    },
                }
            },
        }
    }
}

/// An expression of a tier: an operand and what follows it.
pub open spec fn binary(tier: Tier, s: State) -> Parsed<ExpressionView>
    decreases measure(s), rank(tier) + 2,
{
    match below(tier, s) {
        Err(e) => Err(e),
        Ok((s1, left)) => if measure(s1) <= measure(s) {
            binary_tail(tier, s1, left)
        } else {
            Err(stuck(s1))
        },
    }
}

/// An expression: a sum.
pub open spec fn expression(s: State) -> Parsed<ExpressionView>
    decreases measure(s), 18nat,
{
    binary(Tier::Sum, s)
}

/// The state with one more link on the chain that is open.
pub open spec fn with_link(s: State, e: ExpressionView) -> State {
    State { builder: new_expression_spec(s.builder, e), ..s }
}

/// A link: a chain between bars, which is declared and then referred to; a
/// sequence of notes between braces; or an expression.
pub open spec fn link(s: State) -> Parsed<()>
    decreases measure(s), 19nat,
{
    if s.look.1 == "|"@ {
        proof {
            lemma_literals();
            lemma_advance(s);
        }
        match chain_declaration(advance(s)) {
            Err(e) => Err(e),
            Ok((s1, name)) => match mas(s1, "|"@) {
                Err(e) => Err(e),
                Ok((s2, _)) => Ok((with_link(s2, plain(OperandView::Id(name))), ())),
            },
        }
    } else if s.look.1 == "{"@ {
        match notes(advance(s)) {
            Err(e) => Err(e),
            Ok((s1, all)) => match mas(s1, "}"@) {
                Err(e) => Err(e),
                Ok((s2, _)) => Ok((with_link(s2, plain(OperandView::Notes(all))), ())),
            },
        }
    } else {
        match expression(s) {
            Err(e) => Err(e),
            Ok((s1, e)) => Ok((with_link(s1, e), ())),
        }
    }
}

/// What follows the first link of a chain: as long as `->` stands there,
/// either `out`, which marks the chain as an output and may be followed by a
/// colon and the time at which the output ends, or another link.
pub open spec fn chain_tail(s: State) -> Parsed<()>
    decreases measure(s), 20nat,
{
    if s.look.1 == "->"@ {
        proof {
            lemma_literals();
            lemma_advance(s);
            lemma_advance(advance(s));
            lemma_advance(advance(advance(s)));
        }
        let s1 = advance(s);
        if s1.look.1 == "out"@ {
            let s2 = State { builder: play_chain_spec(s1.builder), ..advance(s1) };
            if s2.look.1 == ":"@ {
                match real_number(advance(s2)) {
                    Err(e) => Err(e),
                    Ok((s3, end)) => if measure(s3) <= measure(advance(s2)) {
                        chain_tail(
                            State { builder: BuilderView { end_time: end, ..s3.builder }, ..s3 },
                        )
                    } else {
                        Err(stuck(s3))
                    },
                }
            } else {
                chain_tail(s2)
            }
        } else {
            match link(s1) {
                Err(e) => Err(e),
                Ok((s2, _)) => if measure(s2) <= measure(s1) {
                    chain_tail(s2)
                } else {
                    Err(stuck(s2))
                },
            }
        }
    } else {
        Ok((s, ()))
    }
}

/// The body of a chain: links, each joined to the next by `->`.
pub open spec fn chain(s: State) -> Parsed<()>
    decreases measure(s), 21nat,
{
    match link(s) {
        Err(e) => Err(e),
        Ok((s1, _)) => if measure(s1) <= measure(s) {
            chain_tail(s1)
        } else {
            Err(stuck(s1))
        },
    }
}

/// Whether a chain declaration begins with a name: an identifier with a colon
/// right behind it.
pub open spec fn is_named(s: State) -> bool {
    s.look.0 == TokenType::Id && peek(s).next.1 == ":"@
}

/// The state behind the name of a chain declaration, if it has one.
pub open spec fn behind_name(s: State) -> State {
    if is_named(s) {
        advance(advance(peek(s)))
    } else if s.look.0 == TokenType::Id {
        peek(s)
    } else {
        s
    }
}

/// A chain declaration: optionally a name and a colon, then the body. The
/// chain is opened in the builder under that name, filled, and closed; the
/// value is its resolved name.
pub open spec fn chain_declaration(s: State) -> Parsed<ChainName>
    decreases measure(s), 22nat,
{
    let s1 = behind_name(s);
    let name = if is_named(s) {
        Some(s.look.1)
    } else {
        None
    };
    proof {
        lemma_advance(s);
        lemma_advance(peek(s));
        lemma_advance(advance(peek(s)));
    }
    match new_chain_spec(s1.builder, name, s1.line) {
        Err(e) => Err(e),
        Ok((b, id)) => match chain(State { builder: b, ..s1 }) {
            Err(e) => Err(e),
            Ok((s2, _)) => Ok((State { builder: finalize_chain_spec(s2.builder), ..s2 }, id)),
        },
    }
}

/// A source: its name and its text.
pub struct SourceView {
    pub name: Seq<char>,
    pub text: Seq<char>,
}

/// The place of the first source of the given name.
pub open spec fn find_source(sources: Seq<SourceView>, name: Seq<char>) -> Option<int>
    decreases sources.len(),
{
    if sources.len() == 0 {
        None
    } else if sources[0].name == name {
        Some(0)
    } else {
        match find_source(sources.skip(1), name) {
            Some(i) => Some(i + 1),
            None => None,
        }
    }
}

/// The name of the chain that stands for a whole source: the letters, digits
/// and underscores with which the source's name begins.
pub open spec fn stem(name: Seq<char>) -> Seq<char> {
    name.take(run_end(name, 0, Run::Word))
}

/// A tempo declaration: `tempo`, a colon and a real number, which becomes the
/// tempo.
pub open spec fn tempo_declaration(s: State) -> Parsed<()> {
    match mas(advance(s), ":"@) {
        Err(e) => Err(e),
        Ok((s1, _)) => match real_number(s1) {
            Err(e) => Err(e),
            Ok((s2, tempo)) => Ok(
                (State { builder: BuilderView { tempo, ..s2.builder }, ..s2 }, ()),
            ),
        },
    }
}

/// A use declaration: `use`, a colon and the name of a source, which is an
/// identifier and may have a full stop and another identifier behind it. The
/// value is that name.
pub open spec fn use_declaration(s: State) -> Parsed<Seq<char>> {
    match mas(advance(s), ":"@) {
        Err(e) => Err(e),
        Ok((s1, _)) => match mat(s1, TokenType::Id) {
            Err(e) => Err(e),
            Ok((s2, _)) => if s2.look.1 == "."@ {
                let s3 = advance(s2);
                if s3.look.0 == TokenType::Id {
                    Ok((advance(s3), s1.look.1 + "."@ + s3.look.1))
                } else {
                    Ok((s3, s1.look.1))
                }
            } else {
                Ok((s2, s1.look.1))
            },
        },
    }
}

/// The builder without its innermost scope.
pub open spec fn without_scope(b: BuilderView) -> BuilderView {
    if b.scopes.len() > 0 {
        BuilderView { scopes: b.scopes.drop_last(), ..b }
    } else {
        b
    }
}

/// The builder `b` with the innermost scope of `from` put on top.
pub open spec fn with_scope_of(b: BuilderView, from: BuilderView) -> BuilderView {
    if from.scopes.len() > 0 {
        BuilderView { scopes: b.scopes.push(from.scopes.last()), ..b }
    } else {
        b
    }
}

/// A use declaration and what it stands for: the source that it names is
/// parsed whole, with a builder from which the innermost scope has been set
/// aside; behind it that scope is back on top of what the used source has
/// left. Where `depth` is zero the sources use one another too deeply.
pub open spec fn used(s: State, sources: Seq<SourceView>, depth: nat) -> Result<State, ErrorView>
    decreases depth, 0nat, 0nat,
{
    match use_declaration(s) {
        Err(e) => Err(e),
        Ok((s1, name)) => if depth == 0 {
            Err(failure(s1, ErrorSpecView::IncludeTooDeep(name)))
        } else {
            match source(sources, name, without_scope(s1.builder), true, (depth - 1) as nat) {
                Err(e) => Err(e),
                Ok(b) => Ok(State { builder: with_scope_of(b, s1.builder), ..s1 }),
            }
        },
    }
}

/// One construct of a source: a tempo declaration; a use declaration, for
/// which the named source is parsed whole, out of sight of the scope of this
/// one, and leaves its names behind; or a chain declaration. `depth` is how
/// deep sources may still use one another.
pub open spec fn construct(s: State, sources: Seq<SourceView>, depth: nat) -> Result<
    State,
    ErrorView,
>
    decreases depth, 1nat, 0nat,
{
    if s.look.1 == "tempo"@ {
        match tempo_declaration(s) {
            Err(e) => Err(e),
            Ok((s1, _)) => Ok(s1),
        }
    } else if s.look.1 == "use"@ {
        used(s, sources, depth)
    } else {
        match chain_declaration(s) {
            Err(e) => Err(e),
            Ok((s1, _)) => Ok(s1),
        }
    }
}

/// The constructs of a source, one after another up to the end of input.
pub open spec fn program(s: State, sources: Seq<SourceView>, depth: nat) -> Result<
    State,
    ErrorView,
>
    decreases depth, 2nat, measure(s),
{
    if s.look.0 == TokenType::Done {
        Ok(s)
    } else {
        match construct(s, sources, depth) {
            Err(e) => Err(e),
            Ok(s1) => if measure(s1) < measure(s) {
                program(s1, sources, depth)
            } else {
                Err(stuck(s1))
            },
        }
    }
}

/// Parsing from a state at the start of the source called `name`: a chain
/// named after the source is opened, the constructs of the source are parsed,
/// and the chain is closed if `finalize` says so. The value is the builder.
pub open spec fn parse(
    s: State,
    name: Seq<char>,
    sources: Seq<SourceView>,
    finalize: bool,
    depth: nat,
) -> Result<BuilderView, ErrorView>
    decreases depth, 3nat, 0nat,
{
    match new_chain_spec(s.builder, Some(stem(name)), s.line) {
        Err(e) => Err(e),
        Ok((b, _)) => match program(State { builder: b, ..s }, sources, depth) {
            Err(e) => Err(e),
            Ok(s1) => Ok(
                if finalize {
                    finalize_chain_spec(s1.builder)
                } else {
                    s1.builder
                },
            ),
        },
    }
}

/// Parsing the source called `name` into a builder: an error where there is
/// no such source.
pub open spec fn source(
    sources: Seq<SourceView>,
    name: Seq<char>,
    builder: BuilderView,
    finalize: bool,
    depth: nat,
) -> Result<BuilderView, ErrorView>
    decreases depth, 4nat, 0nat,
{
    match find_source(sources, name) {
        None => Err(ErrorView { kind: ErrorSpecView::CantOpenFile(name), line: 0 }),
        Some(i) => parse(start(sources[i].text, builder), name, sources, finalize, depth),
    }
}

} // verus!
