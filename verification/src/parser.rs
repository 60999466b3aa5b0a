//! The parser: recursive descent over the tokens, one token of lookahead and
//! one more on demand, filling the builder as it goes.
//!
//! Each method does to the parser what the production of the same name in
//! [`crate::grammar`] does to the parser's state, and returns what it gives.

use vstd::prelude::*;
use vstd::string::*;
use crate::builder::{new_chain_spec, text_of, Builder, BuilderView};
use crate::error::{Error, ErrorSpec, ErrorSpecView, ErrorView, Expected, SonnyResult};
use crate::expr::{Binary, ChainName, Expression, Operand, Property, Unary};
use crate::grammar::{
    advance, backlink, behind_name, below, binary, binary_of, binary_tail, chain,
    chain_declaration, chain_tail, construct, dots, duration, exp_un, expression, failure,
    find_source, is_named, lemma_advance, lemma_lexed_token_ok, lemma_literals, lemma_operators,
    link, mas, mat, measure, more_notes, note, note_value, notes, peek, pitch, program,
    property_of, qualified_name, rank, real_number, reference, start, state_ok, stem,
    tempo_declaration, term, unary_of, use_declaration, used, Parsed, SourceView, State, Tier,
};
use crate::lexer::{in_run, lemma_run_end, Lexer, Run, Token, TokenType};
use crate::text::{chars_of, is_alphanumeric, parse_count, push_char, same_text};
use crate::value::{
    notes_view, string_to_pitch, Duration, Note, NoteValue, Number, Period, Time,
};

verus! {

/// The parser.
#[derive(Debug)]
pub struct Parser {
    main_file_name: String,
    lexer: Lexer,
    builder: Builder,
    look: Token,
    next: Token,
    peeked: bool,
    curr_time: Time,
    paren_level: usize,
}

impl View for Parser {
    type V = State;

    closed spec fn view(&self) -> State {
        State {
            look: self.look@,
            next: self.next@,
            peeked: self.peeked,
            rest: self.lexer.remaining(),
            line: self.lexer.line(),
            paren_level: self.paren_level as nat,
            cursor: self.curr_time@,
            builder: self.builder@,
        }
    }
}

/// A source: its name and the bytes of its text.
#[derive(Debug, PartialEq, Eq)]
pub struct Source {
    pub name: String,
    pub text: Vec<u8>,
}

impl View for Source {
    type V = SourceView;

    open spec fn view(&self) -> SourceView {
        SourceView { name: self.name@, text: chars_of(self.text@) }
    }
}

/// What a list of sources holds.
pub open spec fn sources_view(sources: Seq<Source>) -> Seq<SourceView> {
    Seq::new(sources.len(), |i: int| sources[i]@)
}

/// No source is longer than a machine can hold.
pub open spec fn sources_ok(sources: Seq<Source>) -> bool {
    forall|i: int| 0 <= i < sources.len() ==> (#[trigger] sources[i]).text.len() <= isize::MAX
}

/// Whether the result of a parse is what the grammar gives.
pub open spec fn built(r: Result<Builder, Error>, expected: Result<BuilderView, ErrorView>) -> bool {
    match expected {
        Ok(b) => r is Ok && r->Ok_0@ == b,
        Err(e) => r is Err && r->Err_0@ == e,
    }
}

/// Whether a result and the state behind it are what a production gives.
pub open spec fn outcome<T: View>(r: Result<T, Error>, after: State, expected: Parsed<T::V>) -> bool {
    match expected {
        Ok((s, v)) => r is Ok && r->Ok_0@ == v && after == s,
        Err(e) => r is Err && r->Err_0@ == e,
    }
}

/// Whether a step of the parser did what a production gives: the result and
/// the state are the production's, and after a success the parser is sound
/// and has no more left to parse than before.
pub open spec fn follows<T: View>(
    before: &Parser,
    r: Result<T, Error>,
    after: &Parser,
    expected: Parsed<T::V>,
) -> bool {
    &&& outcome(r, after@, expected)
    &&& r is Ok ==> after.wf() && measure(after@) <= measure(before@)
}

impl Parser {
    /// The parser is sound: its tokenizer is, and its state is one that a
    /// parse can reach.
    pub closed spec fn wf(&self) -> bool {
        self.lexer.wf() && state_ok(self@)
    }

    /// The name of the source that is parsed.
    pub closed spec fn file_name(&self) -> Seq<char> {
        self.main_file_name@
    }

    /// The error of the given kind, on the current line.
    fn error(&self, kind: ErrorSpec) -> (e: Error)
        ensures
            e@ == failure(self@, kind@),
    {
        Error::new(kind).on_line(self.lexer.lineno())
    }

    /// Moves to the next token.
    fn advance(&mut self)
        requires
            old(self).wf(),
        ensures
            final(self).wf(),
            final(self)@ == advance(old(self)@),
            measure(final(self)@) <= measure(old(self)@),
            old(self)@.look.1.len() > 0 ==> measure(final(self)@) < measure(old(self)@),
    {
        proof {
            lemma_advance(self@);
        }
        if self.peeked {
            self.peeked = false;
            self.look = self.next.clone();
        } else {
            self.look = self.lexer.lex();
        }
    }

    /// Looks at the token behind the current one.
    fn peek(&mut self) -> (token: Token)
        requires
            old(self).wf(),
        ensures
            final(self).wf(),
            final(self)@ == peek(old(self)@),
            token@ == final(self)@.next,
            measure(final(self)@) <= measure(old(self)@),
    {
        proof {
            lemma_advance(self@);
        }
        if !self.peeked {
            self.peeked = true;
            self.next = self.lexer.lex();
        }
        self.next.clone()
    }

    /// Expects a token of the given class and moves past it.
    fn mat(&mut self, t: TokenType) -> (r: SonnyResult<()>)
        requires
            old(self).wf(),
        ensures
            follows(old(self), r, final(self), mat(old(self)@, t)),
            r is Ok && old(self)@.look.1.len() > 0 ==> measure(final(self)@) < measure(
                old(self)@,
            ),
    {
        if self.look.0 == t {
            self.advance();
            Ok(())
        } else {
            Err(self.error(ErrorSpec::ExpectedFound(Expected::Kind(t), self.look.clone())))
        }
    }

    /// Expects a token of the given text and moves past it, keeping count of
    /// the parentheses.
    fn mas(&mut self, s: &str) -> (r: SonnyResult<()>)
        requires
            old(self).wf(),
        ensures
            follows(old(self), r, final(self), mas(old(self)@, s@)),
            r is Ok && s@.len() > 0 ==> measure(final(self)@) < measure(old(self)@),
    {
        if !same_text(self.look.1.as_str(), s) {
            return Err(
                self.error(
                    ErrorSpec::ExpectedFound(
                        Expected::Text(String::from_str(s)),
                        self.look.clone(),
                    ),
                ),
            );
        }
        if same_text(s, "(") {
            proof {
                reveal_strlit("(");
            }
            self.advance();
            self.paren_level = self.paren_level + 1;
        } else if same_text(s, ")") {
            if self.paren_level > 0 {
                self.advance();
                self.paren_level = self.paren_level - 1;
            } else {
                return Err(self.error(ErrorSpec::CloseDelimeter(String::from_str(s))));
            }
        } else {
            self.advance();
        }
        Ok(())
    }

    /// A real number, kept as written.
    fn real_number(&mut self) -> (r: SonnyResult<Number>)
        requires
            old(self).wf(),
        ensures
            follows(old(self), r, final(self), real_number(old(self)@)),
            r is Ok ==> measure(final(self)@) < measure(old(self)@),
    {
        let mut num_str = String::new();
        proof {
            reveal_strlit("pi");
            reveal_strlit(".");
        }
        if same_text(self.look.1.as_str(), "pi") {
            num_str.append("3.14159265358979323846");
            self.advance();
        } else if self.look.0 == TokenType::Num {
            num_str.append(self.look.1.as_str());
            self.advance();
            if same_text(self.look.1.as_str(), ".") {
                num_str.append(self.look.1.as_str());
                self.advance();
                if self.look.0 == TokenType::Num {
                    num_str.append(self.look.1.as_str());
                    self.advance();
                }
            }
        } else if same_text(self.look.1.as_str(), ".") {
            let next = self.peek();
            if next.0 == TokenType::Num {
                num_str.append(self.look.1.as_str());
                self.advance();
                num_str.append(self.look.1.as_str());
                self.advance();
            } else {
                return Err(
                    self.error(
                        ErrorSpec::ExpectedFound(
                            Expected::Kind(TokenType::Num),
                            self.look.clone(),
                        ),
                    ),
                );
            }
        } else {
            return Err(
                self.error(
                    ErrorSpec::ExpectedFound(Expected::Kind(TokenType::Num), self.look.clone()),
                ),
            );
        }
        Ok(Number::Decimal(num_str))
    }

    /// A pitch.
    fn pitch(&mut self) -> (r: SonnyResult<Number>)
        requires
            old(self).wf(),
        ensures
            follows(old(self), r, final(self), pitch(old(self)@)),
            r is Ok ==> measure(final(self)@) < measure(old(self)@),
    {
        proof {
            lemma_literals();
        }
        if self.look.0 == TokenType::NoteString {
            let semitones = string_to_pitch(self.look.1.as_str());
            self.advance();
            Ok(Number::Tone(semitones))
        } else if self.look.0 == TokenType::Num {
            self.real_number()
        } else if same_text(self.look.1.as_str(), "_") {
            self.advance();
            Ok(Number::Zero)
        } else {
            Err(self.error(ErrorSpec::InvalidPitch(self.look.clone())))
        }
    }

    /// Counts the full stops that follow one another and moves past them.
    fn dots(&mut self) -> (n: usize)
        requires
            old(self).wf(),
        ensures
            final(self).wf(),
            (final(self)@, n as nat) == dots(old(self)@),
            measure(final(self)@) <= measure(old(self)@),
    {
        let mut result: usize = 0;
        proof {
            lemma_literals();
        }
        while same_text(self.look.1.as_str(), ".")
            invariant
                self.wf(),
                dots(old(self)@) == (dots(self@).0, (dots(self@).1 + result) as nat),
                result + measure(self@) <= measure(old(self)@),
                state_ok(old(self)@),
                "."@.len() == 1,
            decreases measure(self@),
        {
            self.advance();
            result = result + 1;
        }
        result
    }

    /// The note value that the current token names.
    fn note_value(&self) -> (r: Option<NoteValue>)
        ensures
            r == note_value(self@.look.1),
    {
        let text = self.look.1.as_str();
        if same_text(text, "w") {
            Some(NoteValue::Whole)
        } else if same_text(text, "h") {
            Some(NoteValue::Half)
        } else if same_text(text, "q") {
            Some(NoteValue::Quarter)
        } else if same_text(text, "e") {
            Some(NoteValue::Eighth)
        } else if same_text(text, "s") {
            Some(NoteValue::Sixteenth)
        } else if same_text(text, "ts") {
            Some(NoteValue::ThirtySecond)
        } else {
            None
        }
    }

    /// A duration.
    fn duration(&mut self) -> (r: SonnyResult<Duration>)
        requires
            old(self).wf(),
        ensures
            follows(old(self), r, final(self), duration(old(self)@)),
            r is Ok ==> measure(final(self)@) < measure(old(self)@),
    {
        proof {
            lemma_literals();
        }
        let tempo = self.builder.tempo();
        if self.look.0 == TokenType::Num {
            let next = self.peek();
            if same_text(next.1.as_str(), "/") {
                if same_text(self.look.1.as_str(), "pi") {
                    return Err(self.error(ErrorSpec::DurationQuantifier(self.look.clone())));
                }
                let numerator = self.look.1.clone();
                self.advance();
                self.advance();
                if self.look.0 != TokenType::Num {
                    return Err(
                        self.error(
                            ErrorSpec::ExpectedFound(
                                Expected::Kind(TokenType::Num),
                                self.look.clone(),
                            ),
                        ),
                    );
                }
                if same_text(self.look.1.as_str(), "pi") {
                    return Err(self.error(ErrorSpec::DurationQuantifier(self.look.clone())));
                }
                let denominator = self.look.1.clone();
                self.advance();
                Ok(Duration::Fraction { numerator, denominator, tempo })
            } else {
                Ok(Duration::Seconds(self.real_number()?))
            }
        } else {
            match self.note_value() {
                Some(value) => {
                    self.advance();
                    let dots = self.dots();
                    Ok(Duration::Dotted { value, dots, tempo })
                },
                None => Err(self.error(ErrorSpec::DurationQuantifier(self.look.clone()))),
            }
        }
    }

    /// A note. It takes the time from the cursor on, and the cursor moves to
    /// its end.
    fn note(&mut self) -> (r: SonnyResult<Note>)
        requires
            old(self).wf(),
        ensures
            follows(old(self), r, final(self), note(old(self)@)),
            r is Ok ==> measure(final(self)@) < measure(old(self)@),
    {
        let pitch = self.pitch()?;
        self.mas(":")?;
        let duration = self.duration()?;
        let start = self.curr_time.clone();
        let end = self.curr_time.plus(&duration);
        self.curr_time = end.clone();
        Ok(Note { pitch, period: Period { start, end } })
    }

    /// A sequence of notes. The cursor starts at zero and ends at zero.
    fn notes(&mut self) -> (r: SonnyResult<Vec<Note>>)
        requires
            old(self).wf(),
        ensures
            match notes(old(self)@) {
                Ok((s, all)) => r is Ok && notes_view(r->Ok_0@) == all && final(self)@ == s,
                Err(e) => r is Err && r->Err_0@ == e,
            },
            r is Ok ==> final(self).wf() && measure(final(self)@) < measure(old(self)@),
    {
        let mut note_list: Vec<Note> = Vec::new();
        self.curr_time = Time::zero();
        assert(self@ == (State { cursor: Seq::empty(), ..old(self)@ }));
        let first = self.note()?;
        note_list.push(first);
        let ghost inner = more_notes(self@, notes_view(note_list@));
        proof {
            lemma_literals();
            assert(notes_view(note_list@) =~= seq![first@]);
        }
        while same_text(self.look.1.as_str(), ",")
            invariant
                self.wf(),
                more_notes(self@, notes_view(note_list@)) == inner,
                notes(old(self)@) == match inner {
                    Err(e) => Err(e),
                    Ok((s2, all)) => Ok((State { cursor: Seq::empty(), ..s2 }, all)),
                },
                measure(self@) < measure(old(self)@),
                ","@.len() == 1,
            decreases measure(self@),
        {
            self.advance();
            let ghost before = notes_view(note_list@);
            let next = self.note()?;
            note_list.push(next);
            proof {
                assert(notes_view(note_list@) =~= before.push(next@));
            }
        }
        self.curr_time = Time::zero();
        Ok(note_list)
    }

    /// A backlink.
    fn backlink(&mut self) -> (r: SonnyResult<Operand>)
        requires
            old(self).wf(),
        ensures
            follows(old(self), r, final(self), backlink(old(self)@)),
            r is Ok ==> measure(final(self)@) < measure(old(self)@),
    {
        proof {
            lemma_literals();
        }
        self.mas("!")?;
        match parse_count(self.look.1.as_str()) {
            None => Err(self.error(ErrorSpec::InvalidBackLink(self.look.clone()))),
            Some(x) => {
                if x == 0 {
                    return Err(self.error(ErrorSpec::ZeroBacklink));
                }
                self.mat(TokenType::Num)?;
                Ok(Operand::BackLink(x))
            },
        }
    }

    /// The property that the current token names.
    fn property(&self) -> (r: Option<Property>)
        ensures
            r == property_of(self@.look.1),
    {
        let text = self.look.1.as_str();
        if same_text(text, "start") {
            Some(Property::Start)
        } else if same_text(text, "end") {
            Some(Property::End)
        } else if same_text(text, "dur") {
            Some(Property::Duration)
        } else {
            None
        }
    }

    /// A reference to a chain, which the current identifier begins.
    fn reference(&mut self) -> (r: SonnyResult<Operand>)
        requires
            old(self).wf(),
            old(self)@.look.0 == TokenType::Id,
        ensures
            follows(old(self), r, final(self), reference(old(self)@)),
            r is Ok ==> measure(final(self)@) < measure(old(self)@),
    {
        proof {
            lemma_literals();
        }
        let mut name = self.look.1.clone();
        self.advance();
        let ghost goal = qualified_name(self@, name@);
        while same_text(self.look.1.as_str(), "::")
            invariant
                self.wf(),
                qualified_name(self@, name@) == goal,
                goal == qualified_name(advance(old(self)@), old(self)@.look.1),
                measure(self@) < measure(old(self)@),
                self@.builder == old(self)@.builder,
                "::"@.len() == 2,
            decreases measure(self@),
        {
            self.advance();
            if self.look.0 != TokenType::Id {
                return Err(
                    self.error(
                        ErrorSpec::ExpectedFound(Expected::Kind(TokenType::Id), self.look.clone()),
                    ),
                );
            }
            name.append("::");
            name.append(self.look.1.as_str());
            self.advance();
        }
        let handle = match self.builder.find_chain(name.as_str()) {
            Some(handle) => handle,
            None => {
                return Err(self.error(ErrorSpec::CantFindChain(name)));
            },
        };
        if same_text(self.look.1.as_str(), ".") {
            self.advance();
            if handle.generic {
                return Err(
                    self.error(
                        ErrorSpec::PropertyOfGenericChain(handle.name, self.look.1.clone()),
                    ),
                );
            }
            match self.property() {
                Some(property) => {
                    self.advance();
                    Ok(Operand::Property(handle.name, property))
                },
                None => Err(self.error(ErrorSpec::ExpectedNotesProperty(self.look.clone()))),
            }
        } else {
            Ok(Operand::Id(handle.name))
        }
    }

    /// A term.
    fn term(&mut self) -> (r: SonnyResult<Operand>)
        requires
            old(self).wf(),
        ensures
            follows(old(self), r, final(self), term(old(self)@)),
            r is Ok ==> measure(final(self)@) < measure(old(self)@),
        decreases measure(old(self)@), 0nat,
    {
        proof {
            lemma_literals();
        }
        match self.look.0 {
            TokenType::Num => Ok(Operand::Num(self.real_number()?)),
            TokenType::Keyword => {
                if same_text(self.look.1.as_str(), "time") {
                    self.advance();
                    Ok(Operand::Time)
                } else {
                    Err(self.error(ErrorSpec::InvalidKeyword(self.look.1.clone())))
                }
            },
            TokenType::Id => self.reference(),
            TokenType::Misc => {
                if same_text(self.look.1.as_str(), "!") {
                    self.backlink()
                } else {
                    Err(self.error(ErrorSpec::InvalidTerm(self.look.clone())))
                }
            },
            TokenType::Delimeter => {
                if same_text(self.look.1.as_str(), "(") {
                    self.mas("(")?;
                    let expr = self.expression()?;
                    self.mas(")")?;
                    Ok(Operand::Expression(Box::new(expr)))
                } else if same_text(self.look.1.as_str(), ")") && self.paren_level == 0 {
                    Err(self.error(ErrorSpec::CloseDelimeter(self.look.1.clone())))
                } else {
                    Err(self.error(ErrorSpec::InvalidDelimeter(self.look.1.clone())))
                }
            },
            TokenType::NoteString => {
                let semitones = string_to_pitch(self.look.1.as_str());
                self.advance();
                Ok(Operand::Num(Number::Tone(semitones)))
            },
            TokenType::Done => Err(self.error(ErrorSpec::UnexpectedEndOfFile)),
            _ => Err(self.error(ErrorSpec::InvalidTerm(self.look.clone()))),
        }
    }

    /// The operation of one operand that the current token names.
    fn unary_operator(&self) -> (r: Option<Unary>)
        ensures
            r == unary_of(self@.look.1),
    {
        let text = self.look.1.as_str();
        if same_text(text, "-") {
            Some(Unary::Negate)
        } else if same_text(text, "sin") {
            Some(Unary::Sine)
        } else if same_text(text, "cos") {
            Some(Unary::Cosine)
        } else if same_text(text, "ceil") {
            Some(Unary::Ceiling)
        } else if same_text(text, "floor") {
            Some(Unary::Floor)
        } else if same_text(text, "abs") {
            Some(Unary::AbsoluteValue)
        } else {
            None
        }
    }

    /// The operation of a tier that the current token names.
    fn binary_operator(&self, tier: Tier) -> (r: Option<Binary>)
        ensures
            r == binary_of(tier, self@.look.1),
    {
        let text = self.look.1.as_str();
        match tier {
            Tier::MinMax => {
                if same_text(text, "min") {
                    Some(Binary::Min)
                } else if same_text(text, "max") {
                    Some(Binary::Max)
                } else {
                    None
                }
            },
            Tier::Power => {
                if same_text(text, "^") {
                    Some(Binary::Power)
                } else {
                    None
                }
            },
            Tier::Product => {
                if same_text(text, "*") {
                    Some(Binary::Multiply)
                } else if same_text(text, "/") {
                    Some(Binary::Divide)
                } else if same_text(text, "%") {
                    Some(Binary::Remainder)
                } else {
                    None
                }
            },
            Tier::Sum => {
                if same_text(text, "+") {
                    Some(Binary::Add)
                } else if same_text(text, "-") {
                    Some(Binary::Subtract)
                } else {
                    None
                }
            },
        }
    }

    /// The operations of one operand, then a term.
    fn exp_un(&mut self) -> (r: SonnyResult<Expression>)
        requires
            old(self).wf(),
        ensures
            follows(old(self), r, final(self), exp_un(old(self)@)),
            r is Ok ==> measure(final(self)@) < measure(old(self)@),
        decreases measure(old(self)@), 1nat,
    {
        match self.unary_operator() {
            Some(op) => {
                proof {
                    lemma_operators(self@.look.1, Tier::Sum);
                }
                self.advance();
                let operand = self.exp_un()?;
                Ok(Expression::unary(op, operand))
            },
            None => Ok(Expression::operand(self.term()?)),
        }
    }

    /// An operand of a tier: an expression of the tier that binds more.
    fn below(&mut self, tier: Tier) -> (r: SonnyResult<Expression>)
        requires
            old(self).wf(),
        ensures
            follows(old(self), r, final(self), below(tier, old(self)@)),
            r is Ok ==> measure(final(self)@) < measure(old(self)@),
        decreases measure(old(self)@), rank(tier),
    {
        match tier {
            Tier::MinMax => self.exp_un(),
            Tier::Power => self.exp_min_max(),
            Tier::Product => self.exp_pow(),
            Tier::Sum => self.exp_mul(),
        }
    }

    /// An expression of a tier: an operand, then operations of the tier and
    /// their right operands as long as they follow.
    fn binary(&mut self, tier: Tier) -> (r: SonnyResult<Expression>)
        requires
            old(self).wf(),
        ensures
            follows(old(self), r, final(self), binary(tier, old(self)@)),
            r is Ok ==> measure(final(self)@) < measure(old(self)@),
        decreases measure(old(self)@), rank(tier) + 2,
    {
        let ghost goal = binary(tier, self@);
        let mut expr = self.below(tier)?;
        proof {
            lemma_literals();
        }
        loop
            invariant
                self.wf(),
                binary_tail(tier, self@, expr@) == goal,
                goal == binary(tier, old(self)@),
                measure(self@) < measure(old(self)@),
                "log"@.len() == 3,
            decreases measure(self@),
        {
            if tier == Tier::Power && same_text(self.look.1.as_str(), "log") {
                self.advance();
                expr = Expression::unary(Unary::Logarithm, expr);
            } else {
                match self.binary_operator(tier) {
                    None => {
                        return Ok(expr);
                    },
                    Some(op) => {
                        proof {
                            lemma_operators(self@.look.1, tier);
                        }
                        self.advance();
                        let right = if tier == Tier::Power {
                            self.binary(tier)?
                        } else {
                            self.below(tier)?
                        };
                        expr = Expression::binary(op, expr, right);
                    },
                }
            }
        }
    }

    /// An expression of `min` and `max`.
    fn exp_min_max(&mut self) -> (r: SonnyResult<Expression>)
        requires
            old(self).wf(),
        ensures
            follows(old(self), r, final(self), binary(Tier::MinMax, old(self)@)),
            r is Ok ==> measure(final(self)@) < measure(old(self)@),
        decreases measure(old(self)@), rank(Tier::MinMax) + 3,
    {
        self.binary(Tier::MinMax)
    }

    /// An expression of `^` and `log`.
    fn exp_pow(&mut self) -> (r: SonnyResult<Expression>)
        requires
            old(self).wf(),
        ensures
            follows(old(self), r, final(self), binary(Tier::Power, old(self)@)),
            r is Ok ==> measure(final(self)@) < measure(old(self)@),
        decreases measure(old(self)@), rank(Tier::Power) + 3,
    {
        self.binary(Tier::Power)
    }

    /// An expression of `*`, `/` and `%`.
    fn exp_mul(&mut self) -> (r: SonnyResult<Expression>)
        requires
            old(self).wf(),
        ensures
            follows(old(self), r, final(self), binary(Tier::Product, old(self)@)),
            r is Ok ==> measure(final(self)@) < measure(old(self)@),
        decreases measure(old(self)@), rank(Tier::Product) + 3,
    {
        self.binary(Tier::Product)
    }

    /// An expression of `+` and `-`.
    fn exp_add(&mut self) -> (r: SonnyResult<Expression>)
        requires
            old(self).wf(),
        ensures
            follows(old(self), r, final(self), binary(Tier::Sum, old(self)@)),
            r is Ok ==> measure(final(self)@) < measure(old(self)@),
        decreases measure(old(self)@), rank(Tier::Sum) + 3,
    {
        self.binary(Tier::Sum)
    }

    /// An expression.
    fn expression(&mut self) -> (r: SonnyResult<Expression>)
        requires
            old(self).wf(),
        ensures
            follows(old(self), r, final(self), expression(old(self)@)),
            r is Ok ==> measure(final(self)@) < measure(old(self)@),
        decreases measure(old(self)@), 18nat,
    {
        self.exp_add()
    }

    /// A link of a chain.
    fn link(&mut self) -> (r: SonnyResult<()>)
        requires
            old(self).wf(),
        ensures
            follows(old(self), r, final(self), link(old(self)@)),
            r is Ok ==> measure(final(self)@) < measure(old(self)@),
        decreases measure(old(self)@), 19nat,
    {
        proof {
            lemma_literals();
        }
        if same_text(self.look.1.as_str(), "|") {
            self.advance();
            let name = self.chain_declaration()?;
            self.mas("|")?;
            self.builder.new_expression(Expression::operand(Operand::Id(name)));
        } else if same_text(self.look.1.as_str(), "{") {
            self.advance();
            let notes = self.notes()?;
            self.mas("}")?;
            self.builder.new_expression(Expression::operand(Operand::Notes(notes)));
        } else {
            let expr = self.expression()?;
            self.builder.new_expression(expr);
        }
        Ok(())
    }

    /// The body of a chain.
    fn chain(&mut self) -> (r: SonnyResult<()>)
        requires
            old(self).wf(),
        ensures
            follows(old(self), r, final(self), chain(old(self)@)),
            r is Ok ==> measure(final(self)@) < measure(old(self)@),
        decreases measure(old(self)@), 21nat,
    {
        let ghost goal = chain(self@);
        self.link()?;
        proof {
            lemma_literals();
        }
        while same_text(self.look.1.as_str(), "->")
            invariant
                self.wf(),
                chain_tail(self@) == goal,
                goal == chain(old(self)@),
                measure(self@) < measure(old(self)@),
                "->"@.len() == 2,
                "out"@.len() == 3,
                ":"@.len() == 1,
            decreases measure(self@),
        {
            self.advance();
            if same_text(self.look.1.as_str(), "out") {
                self.builder.play_chain();
                self.advance();
                if same_text(self.look.1.as_str(), ":") {
                    self.advance();
                    let end = self.real_number()?;
                    self.builder.set_end_time(end);
                }
            } else {
                self.link()?;
            }
        }
        Ok(())
    }

    /// A chain declaration.
    fn chain_declaration(&mut self) -> (r: SonnyResult<ChainName>)
        requires
            old(self).wf(),
        ensures
            follows(old(self), r, final(self), chain_declaration(old(self)@)),
            r is Ok ==> measure(final(self)@) < measure(old(self)@),
        decreases measure(old(self)@), 22nat,
    {
        let mut name: Option<String> = None;
        if self.look.0 == TokenType::Id {
            let next = self.peek();
            if same_text(next.1.as_str(), ":") {
                name = Some(self.look.1.clone());
                self.advance();
                self.advance();
            }
        }
        proof {
            lemma_advance(old(self)@);
            lemma_advance(peek(old(self)@));
            lemma_advance(advance(peek(old(self)@)));
            assert(self@ == behind_name(old(self)@));
            assert(text_of(name) == if is_named(old(self)@) {
                Some(old(self)@.look.1)
            } else {
                None
            });
        }
        let line = self.lexer.lineno();
        let chain_name = self.builder.new_chain(name, line)?;
        assert(self@ == (State {
            builder: new_chain_spec(
                behind_name(old(self)@).builder,
                text_of(name),
                line as nat,
            )->Ok_0.0,
            ..behind_name(old(self)@)
        }));
        self.chain()?;
        self.builder.finalize_chain();
        Ok(chain_name)
    }

    /// The letters, digits and underscores with which a name begins.
    fn stem(name: &str) -> (r: String)
        ensures
            r@ == stem(name@),
    {
        let len = name.unicode_len();
        let mut out = String::new();
        let mut i: usize = 0;
        let mut more = true;
        while more && i < len
            invariant
                i <= len == name@.len(),
                out@ == name@.take(i as int),
                forall|j: int| 0 <= j < i ==> in_run(Run::Word, #[trigger] name@[j]),
                !more ==> i < len && !in_run(Run::Word, name@[i as int]),
            decreases len - i + if more { 1int } else { 0int },
        {
            let c = name.get_char(i);
            if is_alphanumeric(c) || c == '_' {
                push_char(&mut out, c);
                i = i + 1;
                assert(out@ =~= name@.take(i as int));
            } else {
                more = false;
            }
        }
        proof {
            lemma_run_end(name@, 0, i as int, Run::Word);
        }
        out
    }

    /// A copy of some bytes.
    fn copy_bytes(bytes: &Vec<u8>) -> (r: Vec<u8>)
        ensures
            r@ == bytes@,
    {
        let mut out: Vec<u8> = Vec::new();
        let mut i: usize = 0;
        while i < bytes.len()
            invariant
                i <= bytes.len(),
                out@ == bytes@.take(i as int),
            decreases bytes.len() - i,
        {
            out.push(bytes[i]);
            i = i + 1;
            assert(out@ =~= bytes@.take(i as int));
        }
        assert(bytes@.take(i as int) =~= bytes@);
        out
    }

    /// A parser at the start of the source called `file`, with its first
    /// token read; an error where `sources` has no source of that name.
    pub fn new(file: &str, sources: &Vec<Source>, builder: Builder) -> (r: SonnyResult<Parser>)
        requires
            sources_ok(sources@),
        ensures
            match find_source(sources_view(sources@), file@) {
                Some(i) => r is Ok && r->Ok_0.wf() && r->Ok_0@ == start(
                    sources_view(sources@)[i].text,
                    builder@,
                ) && r->Ok_0.file_name() == file@,
                None => r is Err && r->Err_0@ == (ErrorView {
                    kind: ErrorSpecView::CantOpenFile(file@),
                    line: 0,
                }),
            },
    {
        let ghost all = sources_view(sources@);
        let mut i: usize = 0;
        assert(all.skip(0) =~= all);
        while i < sources.len()
            invariant
                i <= sources.len(),
                all == sources_view(sources@),
                sources_ok(sources@),
                find_source(all, file@) == match find_source(all.skip(i as int), file@) {
                    Some(k) => Some(k + i),
                    None => None,
                },
            decreases sources.len() - i,
        {
            assert(all.skip(i as int)[0] == sources[i as int]@);
            assert(all.skip(i as int).skip(1) =~= all.skip(i + 1));
            if same_text(sources[i].name.as_str(), file) {
                let text = Self::copy_bytes(&sources[i].text);
                let mut lexer = Lexer::new(text);
                let ghost whole = lexer.remaining();
                let look = lexer.lex();
                proof {
                    lemma_lexed_token_ok(whole);
                    lexer.lemma_bounded();
                }
                return Ok(
                    Parser {
                        main_file_name: String::from_str(file),
                        lexer,
                        builder,
                        look,
                        next: Token(TokenType::Empty, String::new()),
                        peeked: false,
                        curr_time: Time::zero(),
                        paren_level: 0,
                    },
                );
            }
            i = i + 1;
        }
        Err(Error::new(ErrorSpec::CantOpenFile(String::from_str(file))))
    }

    /// Parses the source from where the parser stands to its end, and every
    /// source that it includes, into the builder, and returns the builder. The
    /// chain that stands for the source is closed if `finalize` says so.
    /// Sources may include one another as deep as there are sources.
    pub fn parse(self, sources: &Vec<Source>, finalize: bool) -> (r: SonnyResult<Builder>)
        requires
            self.wf(),
            sources_ok(sources@),
        ensures
            built(
                r,
                crate::grammar::parse(
                    self@,
                    self.file_name(),
                    sources_view(sources@),
                    finalize,
                    sources.len() as nat,
                ),
            ),
    {
        self.parse_within(sources, finalize, sources.len())
    }

    /// A tempo declaration, which the current token `tempo` begins.
    fn tempo_declaration(&mut self) -> (r: SonnyResult<()>)
        requires
            old(self).wf(),
            old(self)@.look.1.len() > 0,
        ensures
            follows(old(self), r, final(self), tempo_declaration(old(self)@)),
            r is Ok ==> measure(final(self)@) < measure(old(self)@),
    {
        self.advance();
        self.mas(":")?;
        let tempo = self.real_number()?;
        self.builder.set_tempo(tempo);
        Ok(())
    }

    /// A use declaration, which the current token `use` begins. Returns the
    /// name of the source that it names.
    fn use_declaration(&mut self) -> (r: SonnyResult<String>)
        requires
            old(self).wf(),
            old(self)@.look.1.len() > 0,
        ensures
            follows(old(self), r, final(self), use_declaration(old(self)@)),
            r is Ok ==> measure(final(self)@) < measure(old(self)@),
    {
        self.advance();
        self.mas(":")?;
        let mut filename = self.look.1.clone();
        self.mat(TokenType::Id)?;
        if same_text(self.look.1.as_str(), ".") {
            self.advance();
            if self.look.0 == TokenType::Id {
                filename.append(".");
                filename.append(self.look.1.as_str());
                self.advance();
            }
        }
        Ok(filename)
    }

    /// A use declaration, which the current token `use` begins, and the
    /// source that it names: that source is parsed whole into the builder, out
    /// of sight of the innermost scope, which is put back afterwards.
    fn used(&mut self, sources: &Vec<Source>, depth: usize) -> (r: SonnyResult<()>)
        requires
            old(self).wf(),
            sources_ok(sources@),
            old(self)@.look.1.len() > 0,
        ensures
            match used(old(self)@, sources_view(sources@), depth as nat) {
                Ok(s) => r is Ok && final(self).wf() && final(self)@ == s && measure(s) < measure(
                    old(self)@,
                ),
                Err(e) => r is Err && r->Err_0@ == e,
            },
        decreases depth, 0nat,
    {
        let filename = self.use_declaration()?;
        if depth == 0 {
            return Err(self.error(ErrorSpec::IncludeTooDeep(filename)));
        }
        let temp_scope = self.builder.pop_scope();
        let mut builder = Builder::new();
        std::mem::swap(&mut self.builder, &mut builder);
        let inner = Parser::new(filename.as_str(), sources, builder)?;
        let mut result = inner.parse_within(sources, true, depth - 1)?;
        match temp_scope {
            Some(scope) => {
                result.push_scope(scope);
            },
            None => {},
        }
        self.builder = result;
        Ok(())
    }

    /// One construct of a source.
    fn construct(&mut self, sources: &Vec<Source>, depth: usize) -> (r: SonnyResult<()>)
        requires
            old(self).wf(),
            sources_ok(sources@),
            old(self)@.look.0 != TokenType::Done,
        ensures
            match construct(old(self)@, sources_view(sources@), depth as nat) {
                Ok(s) => r is Ok && final(self).wf() && final(self)@ == s && measure(s) < measure(
                    old(self)@,
                ),
                Err(e) => r is Err && r->Err_0@ == e,
            },
        decreases depth, 1nat,
    {
        if same_text(self.look.1.as_str(), "tempo") {
            self.tempo_declaration()
        } else if same_text(self.look.1.as_str(), "use") {
            self.used(sources, depth)
        } else {
            self.chain_declaration()?;
            Ok(())
        }
    }

    /// The constructs of a source, up to the end of input.
    fn program(&mut self, sources: &Vec<Source>, depth: usize) -> (r: SonnyResult<()>)
        requires
            old(self).wf(),
            sources_ok(sources@),
        ensures
            match program(old(self)@, sources_view(sources@), depth as nat) {
                Ok(s) => r is Ok && final(self)@ == s,
                Err(e) => r is Err && r->Err_0@ == e,
            },
        decreases depth, 2nat,
    {
        while self.look.0 != TokenType::Done
            invariant
                self.wf(),
                sources_ok(sources@),
                program(self@, sources_view(sources@), depth as nat) == program(
                    old(self)@,
                    sources_view(sources@),
                    depth as nat,
                ),
            decreases measure(self@),
        {
            self.construct(sources, depth)?;
        }
        Ok(())
    }

    /// Parses the source, with sources using one another no deeper than
    /// `depth`.
    fn parse_within(self, sources: &Vec<Source>, finalize: bool, depth: usize) -> (r:
        SonnyResult<Builder>)
        requires
            self.wf(),
            sources_ok(sources@),
        ensures
            built(
                r,
                crate::grammar::parse(
                    self@,
                    self.file_name(),
                    sources_view(sources@),
                    finalize,
                    depth as nat,
                ),
            ),
        decreases depth, 3nat,
    {
        let mut parser = self;
        let name = Self::stem(parser.main_file_name.as_str());
        let line = parser.lexer.lineno();
        parser.builder.new_chain(Some(name), line)?;
        parser.program(sources, depth)?;
        if finalize {
            parser.builder.finalize_chain();
        }
        Ok(parser.builder)
    }
}

/// Parses the source called `file`, and every source that it uses, into
/// `builder`, and returns the builder: what [`crate::grammar::source`] gives
/// for these sources, with sources using one another as deep as there are
/// sources.
pub fn parse_source(file: &str, sources: &Vec<Source>, builder: Builder, finalize: bool) -> (r:
    SonnyResult<Builder>)
    requires
        sources_ok(sources@),
    ensures
        built(
            r,
            crate::grammar::source(
                sources_view(sources@),
                file@,
                builder@,
                finalize,
                sources.len() as nat,
            ),
        ),
{
    let parser = Parser::new(file, sources, builder)?;
    parser.parse(sources, finalize)
}

} // verus!
