//! The tokenizer: turns a stream of bytes into classified tokens, one per
//! call, with one character of pushback.
//!
//! Every byte is one character, the one whose code point is the byte's value.
//! What a call of [`Lexer::lex`] returns is given by [`lex_spec`], a function
//! of the characters that have not been read yet.

use vstd::prelude::*;
use vstd::string::*;
use crate::text::{
    byte_to_char, chars_of, decimal_digit, is_alphabetic, is_alphanumeric, is_letter,
    is_letter_or_digit, is_space, is_whitespace, push_char, same_text,
};

verus! {

/// The class of a token.
#[derive(Debug, Clone, Copy, PartialEq, Eq, Structural)]
pub enum TokenType {
    Operator,
    Id,
    Num,
    NoteString,
    Keyword,
    Delimeter,
    Misc,
    Done,
    Unknown,
    /// A placeholder; the tokenizer never returns it.
    Empty,
}

/// A token: its class and the exact text that was matched.
#[derive(Debug, PartialEq, Eq)]
pub struct Token(pub TokenType, pub String);

impl View for Token {
    type V = (TokenType, Seq<char>);

    open spec fn view(&self) -> (TokenType, Seq<char>) {
        (self.0, self.1@)
    }
}

impl Clone for Token {
    fn clone(&self) -> (r: Self)
        ensures
            r@ == self@,
    {
        Token(self.0, self.1.clone())
    }
}

/// The kinds of run that the tokenizer reads to its end.
pub enum Run {
    /// Letters, digits and underscores.
    Word,
    /// Decimal digits.
    Digits,
    /// Everything up to the end of the line.
    Comment,
}

/// Whether a character continues a run of the given kind.
pub open spec fn in_run(run: Run, c: char) -> bool {
    match run {
        Run::Word => is_letter_or_digit(c) || c == '_',
        Run::Digits => decimal_digit(c),
        Run::Comment => c != '\n',
    }
}

/// The index at which the run that is under way at index `i` ends: the first
/// index from `i` on whose character does not continue it, or the length.
pub open spec fn run_end(s: Seq<char>, i: int, run: Run) -> int
    decreases s.len() - i,
{
    if 0 <= i < s.len() && in_run(run, s[i]) {
        run_end(s, i + 1, run)
    } else {
        i
    }
}

/// The fixed set of keywords.
pub open spec fn is_keyword(w: Seq<char>) -> bool {
    w == "time"@ || w == "sample_rate"@ || w == "sin"@ || w == "cos"@ || w == "ceil"@ || w
        == "floor"@ || w == "abs"@ || w == "end"@ || w == "out"@
}

/// A letter that may begin a note literal.
pub open spec fn note_letter(c: char) -> bool {
    'A' <= c && c <= 'F'
}

/// A sharp or a flat sign.
pub open spec fn accidental(c: char) -> bool {
    c == '#' || c == 'b'
}

/// The note-literal grammar: a letter `A` to `F`, then at most one accidental,
/// then at most one digit, and nothing else.
pub open spec fn is_note(w: Seq<char>) -> bool {
    &&& 1 <= w.len() <= 3
    &&& note_letter(w[0])
    &&& w.len() == 2 ==> accidental(w[1]) || decimal_digit(w[1])
    &&& w.len() == 3 ==> accidental(w[1]) && decimal_digit(w[2])
}

/// The class of a run of letters, digits and underscores.
pub open spec fn word_kind(w: Seq<char>) -> TokenType {
    if w == "pi"@ {
        TokenType::Num
    } else if is_keyword(w) {
        TokenType::Keyword
    } else if is_note(w) {
        TokenType::NoteString
    } else {
        TokenType::Id
    }
}

/// A character that is a delimiter by itself.
pub open spec fn single_delimiter(c: char) -> bool {
    c == '(' || c == ')' || c == '{' || c == '}' || c == '[' || c == ']' || c == ','
}

/// A character that is an operator by itself.
pub open spec fn single_operator(c: char) -> bool {
    c == '+' || c == '*' || c == '%' || c == '^'
}

/// The class and the length of the punctuation token at the head of `s`,
/// which is not empty and begins neither a word, a number, white space nor a
/// comment.
pub open spec fn punctuation(s: Seq<char>) -> (TokenType, int) {
    let c = s[0];
    let paired = s.len() >= 2 && ((c == ':' && s[1] == ':') || (c == '-' && s[1] == '>'));
    if single_delimiter(c) || c == ':' {
        (TokenType::Delimeter, if paired { 2int } else { 1int })
    } else if c == '!' || c == '.' {
        (TokenType::Misc, 1)
    } else if single_operator(c) || c == '/' {
        (TokenType::Operator, 1)
    } else if c == '-' {
        if paired {
            (TokenType::Delimeter, 2)
        } else {
            (TokenType::Operator, 1)
        }
    } else {
        (TokenType::Unknown, 1)
    }
}

/// What one call of the tokenizer does to its input.
pub struct Lexed {
    /// The token returned.
    pub token: (TokenType, Seq<char>),
    /// The characters left unread.
    pub rest: Seq<char>,
    /// The number of line feeds passed over.
    pub newlines: nat,
}

/// The token at the head of `s`, what is left of `s` behind it, and the number
/// of line feeds that were skipped on the way.
pub open spec fn lex_spec(s: Seq<char>) -> Lexed
    decreases s.len(),
{
    if s.len() == 0 {
        Lexed { token: (TokenType::Done, Seq::empty()), rest: s, newlines: 0 }
    } else if is_letter(s[0]) || s[0] == '_' {
        let n = run_end(s, 1, Run::Word);
        Lexed { token: (word_kind(s.take(n)), s.take(n)), rest: s.skip(n), newlines: 0 }
    } else if decimal_digit(s[0]) {
        let n = run_end(s, 1, Run::Digits);
        Lexed { token: (TokenType::Num, s.take(n)), rest: s.skip(n), newlines: 0 }
    } else if is_space(s[0]) {
        let l = lex_spec(s.skip(1));
        Lexed {
            token: l.token,
            rest: l.rest,
            newlines: l.newlines + if s[0] == '\n' { 1nat } else { 0nat },
        }
    } else if s[0] == '/' && s.len() >= 2 && s[1] == '/' {
        let n = run_end(s, 2, Run::Comment);
        if 2 <= n < s.len() {
            let l = lex_spec(s.skip(n + 1));
            Lexed { token: l.token, rest: l.rest, newlines: l.newlines + 1 }
        } else {
            Lexed { token: (TokenType::Done, Seq::empty()), rest: Seq::empty(), newlines: 0 }
        }
    } else {
        let (kind, n) = punctuation(s);
        Lexed { token: (kind, s.take(n)), rest: s.skip(n), newlines: 0 }
    }
}

/// A run ends at `k` when every character from `i` up to `k` continues it and
/// the character at `k`, if there is one, does not.
pub proof fn lemma_run_end(s: Seq<char>, i: int, k: int, run: Run)
    requires
        0 <= i <= k <= s.len(),
        forall|j: int| i <= j < k ==> in_run(run, #[trigger] s[j]),
        k == s.len() || !in_run(run, s[k]),
    ensures
        run_end(s, i, run) == k,
    decreases k - i,
{
    if i < k {
        lemma_run_end(s, i + 1, k, run);
    }
}

/// A run is maximal: it ends inside the text, everything in it continues it,
/// and what follows it does not.
pub proof fn lemma_run_maximal(s: Seq<char>, i: int, run: Run)
    requires
        0 <= i <= s.len(),
    ensures
        i <= run_end(s, i, run) <= s.len(),
        forall|j: int| i <= j < run_end(s, i, run) ==> in_run(run, #[trigger] s[j]),
        run_end(s, i, run) == s.len() || !in_run(run, s[run_end(s, i, run)]),
    decreases s.len() - i,
{
    if i < s.len() && in_run(run, s[i]) {
        lemma_run_maximal(s, i + 1, run);
    }
}

/// The tokenizer reads its input from the front and never reads a character
/// twice: what is left is the end of the input, a token other than the end of
/// input has text and takes at least one character, and the end of input has
/// no text and leaves nothing.
pub proof fn lemma_lex_consumes(s: Seq<char>)
    ensures
        lex_spec(s).rest.len() <= s.len(),
        lex_spec(s).rest == s.skip(s.len() - lex_spec(s).rest.len()),
        lex_spec(s).token.0 != TokenType::Done ==> lex_spec(s).rest.len() < s.len(),
        lex_spec(s).token.0 != TokenType::Done ==> lex_spec(s).token.1.len() >= 1,
        lex_spec(s).token.0 == TokenType::Done ==> lex_spec(s).token.1.len() == 0
            && lex_spec(s).rest.len() == 0,
        lex_spec(s).token.0 != TokenType::Empty,
    decreases s.len(),
{
    let rest = lex_spec(s).rest;
    if s.len() == 0 {
        assert(rest =~= s.skip(0));
    } else if is_letter(s[0]) || s[0] == '_' {
        lemma_run_maximal(s, 1, Run::Word);
    } else if decimal_digit(s[0]) {
        lemma_run_maximal(s, 1, Run::Digits);
    } else if is_space(s[0]) {
        lemma_lex_consumes(s.skip(1));
        assert(rest =~= s.skip(s.len() - rest.len()));
    } else if s[0] == '/' && s.len() >= 2 && s[1] == '/' {
        let n = run_end(s, 2, Run::Comment);
        if 2 <= n < s.len() {
            lemma_lex_consumes(s.skip(n + 1));
            assert(rest =~= s.skip(s.len() - rest.len()));
        } else {
            assert(rest =~= s.skip(s.len() as int));
        }
    } else {
    }
}

/// `pi` and the keywords have at least two characters and begin with a
/// lower-case letter.
pub proof fn lemma_reserved_words(w: Seq<char>)
    requires
        w == "pi"@ || is_keyword(w),
    ensures
        w.len() >= 2,
        'a' <= w[0] && w[0] <= 'z',
{
    reveal_strlit("pi");
    reveal_strlit("time");
    reveal_strlit("sample_rate");
    reveal_strlit("sin");
    reveal_strlit("cos");
    reveal_strlit("ceil");
    reveal_strlit("floor");
    reveal_strlit("abs");
    reveal_strlit("end");
    reveal_strlit("out");
}

/// A maximal run of decimal digits at the head of the input comes back whole
/// as one number token, with nothing else consumed; a full stop that follows
/// it is a token of its own, of the miscellaneous class.
pub proof fn law_number_run(s: Seq<char>, n: int)
    requires
        1 <= n <= s.len(),
        forall|j: int| 0 <= j < n ==> decimal_digit(#[trigger] s[j]),
        n == s.len() || !decimal_digit(s[n]),
    ensures
        lex_spec(s).token == (TokenType::Num, s.take(n)),
        lex_spec(s).rest == s.skip(n),
        lex_spec(s).newlines == 0,
        n < s.len() && s[n] == '.' ==> lex_spec(s.skip(n)).token == (TokenType::Misc, seq!['.'])
            && lex_spec(s.skip(n)).rest == s.skip(n + 1),
{
    assert(decimal_digit(s[0]));
    lemma_run_end(s, 1, n, Run::Digits);
    if n < s.len() && s[n] == '.' {
        let t = s.skip(n);
        assert(t[0] == '.');
        assert(t.take(1) =~= seq!['.']);
        assert(t.skip(1) =~= s.skip(n + 1));
    }
}

/// A maximal run of letters, digits and underscores that begins with a letter
/// from `A` to `F` comes back whole as one token. It is a note literal exactly
/// when it is the letter, then at most one accidental, then at most one digit;
/// any longer or other run is an identifier.
pub proof fn law_note_literal(s: Seq<char>, n: int)
    requires
        1 <= n <= s.len(),
        note_letter(s[0]),
        forall|j: int| 1 <= j < n ==> in_run(Run::Word, #[trigger] s[j]),
        n == s.len() || !in_run(Run::Word, s[n]),
    ensures
        lex_spec(s).rest == s.skip(n),
        lex_spec(s).newlines == 0,
        lex_spec(s).token.1 == s.take(n),
        is_note(s.take(n)) ==> lex_spec(s).token.0 == TokenType::NoteString,
        !is_note(s.take(n)) ==> lex_spec(s).token.0 == TokenType::Id,
        n >= 4 ==> lex_spec(s).token.0 == TokenType::Id,
{
    lemma_run_end(s, 1, n, Run::Word);
    let w = s.take(n);
    assert(w[0] == s[0]);
    if w == "pi"@ || is_keyword(w) {
        lemma_reserved_words(w);
    }
}

/// The tokenizer's state: the input, how far it has been read, the one
/// character that may have been pushed back, and the line counter.
#[derive(Debug)]
pub struct Lexer {
    lineno: usize,
    was_put_back: bool,
    c: u8,
    input: Vec<u8>,
    pos: usize,
}

impl Lexer {
    /// The state is consistent: the read position lies inside the input, a
    /// pushed-back character is the one last read, and the line counter has
    /// counted no more line feeds than characters were consumed.
    pub closed spec fn wf(&self) -> bool {
        &&& self.pos <= self.input.len() <= isize::MAX
        &&& self.was_put_back ==> self.pos >= 1 && self.c == self.input[self.pos - 1]
        &&& 1 <= self.lineno
        &&& self.lineno <= self.cursor() + 1
    }

    /// The index of the next character that a read returns.
    closed spec fn cursor(&self) -> int {
        if self.was_put_back {
            self.pos - 1
        } else {
            self.pos as int
        }
    }

    /// The whole input as characters.
    closed spec fn text(&self) -> Seq<char> {
        chars_of(self.input@)
    }

    /// The characters that have not been consumed yet, a pushed-back one
    /// included.
    pub closed spec fn remaining(&self) -> Seq<char> {
        self.text().skip(self.cursor())
    }

    /// The current line, counted from 1.
    pub closed spec fn line(&self) -> nat {
        self.lineno as nat
    }

    /// What is left to read fits well inside the machine's integers.
    pub proof fn lemma_bounded(&self)
        requires
            self.wf(),
        ensures
            self.remaining().len() <= isize::MAX,
            self.line() <= isize::MAX + 1,
    {
    }

    /// A tokenizer at the start of `input`, on line 1.
    pub fn new(input: Vec<u8>) -> (lexer: Lexer)
        requires
            input.len() <= isize::MAX,
        ensures
            lexer.wf(),
            lexer.remaining() == chars_of(input@),
            lexer.line() == 1,
    {
        let lexer = Lexer { lineno: 1, was_put_back: false, c: 0, input, pos: 0 };
        assert(lexer.text().skip(0) =~= lexer.text());
        lexer
    }

    /// The current line, counted from 1.
    pub fn lineno(&self) -> (n: usize)
        ensures
            n == self.line(),
    {
        self.lineno
    }

    /// Reads one character: the one pushed back, if there is one, else the
    /// next of the input.
    fn get_char(&mut self) -> (r: Option<char>)
        requires
            old(self).wf(),
        ensures
            final(self).wf(),
            final(self).input == old(self).input,
            final(self).lineno == old(self).lineno,
            !final(self).was_put_back,
            match r {
                Some(c) => {
                    &&& old(self).cursor() < old(self).input.len()
                    &&& final(self).pos == old(self).cursor() + 1
                    &&& c == old(self).text()[old(self).cursor()]
                    &&& final(self).c == old(self).input[old(self).cursor()]
                },
                None => {
                    &&& old(self).cursor() == old(self).input.len()
                    &&& final(self).pos == old(self).pos
                },
            },
    {
        if self.was_put_back {
            self.was_put_back = false;
            Some(byte_to_char(self.c))
        } else if self.pos < self.input.len() {
            self.c = self.input[self.pos];
            self.pos = self.pos + 1;
            Some(byte_to_char(self.c))
        } else {
            None
        }
    }

    /// Pushes the character last read back, so that the next read returns it
    /// again.
    fn put_back(&mut self)
        requires
            old(self).wf(),
            !old(self).was_put_back,
            old(self).pos >= 1,
            old(self).c == old(self).input[old(self).pos - 1],
            old(self).lineno <= old(self).pos,
        ensures
            final(self).wf(),
            final(self).input == old(self).input,
            final(self).lineno == old(self).lineno,
            final(self).pos == old(self).pos,
            final(self).was_put_back,
    {
        self.was_put_back = true;
    }

    /// Reads a run to its end. The character at `start` has been read; the
    /// characters that continue the run are appended to `token`.
    fn read_run(&mut self, token: &mut String, run: Run, Ghost(start): Ghost<int>)
        requires
            old(self).wf(),
            !old(self).was_put_back,
            0 <= start < old(self).pos,
            old(self).lineno <= start + 1,
            !(run is Comment),
            old(token)@ == old(self).text().subrange(start, old(self).pos as int),
        ensures
            final(self).wf(),
            final(self).input == old(self).input,
            final(self).lineno == old(self).lineno,
            final(self).cursor() == start + run_end(
                old(self).text().skip(start),
                old(self).pos - start,
                run,
            ),
            final(self).cursor() >= old(self).pos,
            final(token)@ == old(self).text().subrange(start, final(self).cursor()),
    {
        let ghost s = self.text().skip(start);
        let ghost from = self.pos - start;
        let mut more = true;
        while more
            invariant
                self.wf(),
                self.input == old(self).input,
                self.lineno == old(self).lineno,
                s == self.text().skip(start),
                from == old(self).pos - start,
                0 <= start < old(self).pos,
                self.lineno <= start + 1,
                !(run is Comment),
                old(self).pos <= self.cursor() <= self.input.len(),
                more ==> !self.was_put_back,
                token@ == self.text().subrange(start, self.cursor()),
                forall|j: int| from <= j < self.cursor() - start ==> in_run(run, #[trigger] s[j]),
                !more ==> self.cursor() == self.input.len() || !in_run(
                    run,
                    s[self.cursor() - start],
                ),
            decreases self.input.len() - self.pos + if more { 1int } else { 0int },
        {
            let ghost at = self.cursor();
            match self.get_char() {
                Some(d) => {
                    let goes_on = match run {
                        Run::Word => is_alphanumeric(d) || d == '_',
                        _ => d >= '0' && d <= '9',
                    };
                    assert(s[at - start] == d);
                    if goes_on {
                        push_char(token, d);
                        assert(token@ =~= self.text().subrange(start, self.cursor()));
                    } else {
                        self.put_back();
                        more = false;
                    }
                },
                None => {
                    more = false;
                },
            }
        }
        proof {
            lemma_run_end(s, from, self.cursor() - start, run);
        }
    }

    /// Skips the rest of a line comment, the line feed that ends it included,
    /// and counts that line feed.
    fn skip_comment(&mut self, Ghost(start): Ghost<int>)
        requires
            old(self).wf(),
            !old(self).was_put_back,
            0 <= start,
            old(self).pos == start + 2,
            old(self).lineno <= start + 1,
        ensures
            final(self).wf(),
            final(self).input == old(self).input,
            !final(self).was_put_back,
            ({
                let s = old(self).text().skip(start);
                let n = run_end(s, 2, Run::Comment);
                &&& 2 <= n <= s.len()
                &&& n < s.len() ==> final(self).pos == start + n + 1 && final(self).lineno == old(
                    self,
                ).lineno + 1
                &&& n == s.len() ==> final(self).pos == start + n && final(self).lineno == old(
                    self,
                ).lineno
            }),
    {
        let ghost s = self.text().skip(start);
        let mut more = true;
        let mut ended = false;
        while more
            invariant
                self.wf(),
                self.input == old(self).input,
                self.lineno == old(self).lineno,
                !self.was_put_back,
                s == self.text().skip(start),
                0 <= start,
                self.lineno <= start + 1,
                start + 2 <= self.pos <= self.input.len(),
                more ==> !ended,
                forall|j: int|
                    2 <= j < self.pos - start - if ended { 1int } else { 0int } ==> in_run(
                        Run::Comment,
                        #[trigger] s[j],
                    ),
                ended ==> s[self.pos - start - 1] == '\n' && self.pos - start - 1 >= 2,
                !more && !ended ==> self.pos == self.input.len(),
            decreases self.input.len() - self.pos + if more { 1int } else { 0int },
        {
            let ghost at = self.pos as int;
            match self.get_char() {
                Some(d) => {
                    assert(s[at - start] == d);
                    if d == '\n' {
                        ended = true;
                        more = false;
                    }
                },
                None => {
                    more = false;
                },
            }
        }
        if ended {
            proof {
                lemma_run_end(s, 2, self.pos - start - 1, Run::Comment);
            }
            self.lineno = self.lineno + 1;
        } else {
            proof {
                lemma_run_end(s, 2, self.pos - start, Run::Comment);
            }
        }
    }

    /// The class of a run of letters, digits and underscores.
    fn classify(word: &String) -> (kind: TokenType)
        ensures
            kind == word_kind(word@),
    {
        let w = word.as_str();
        if same_text(w, "pi") {
            return TokenType::Num;
        }
        if same_text(w, "time") || same_text(w, "sample_rate") || same_text(w, "sin")
            || same_text(w, "cos") || same_text(w, "ceil") || same_text(w, "floor") || same_text(
            w,
            "abs",
        ) || same_text(w, "end") || same_text(w, "out") {
            return TokenType::Keyword;
        }
        let len = w.unicode_len();
        if len < 1 || len > 3 {
            return TokenType::Id;
        }
        let first = w.get_char(0);
        if !(first >= 'A' && first <= 'F') {
            return TokenType::Id;
        }
        if len == 1 {
            return TokenType::NoteString;
        }
        let second = w.get_char(1);
        let sign = second == '#' || second == 'b';
        let digit = second >= '0' && second <= '9';
        if len == 2 {
            if sign || digit {
                return TokenType::NoteString;
            }
            return TokenType::Id;
        }
        let third = w.get_char(2);
        if sign && third >= '0' && third <= '9' {
            TokenType::NoteString
        } else {
            TokenType::Id
        }
    }

    /// Returns the next token and moves past it.
    ///
    /// The token, the characters left unread and the number of line feeds
    /// counted are those that [`lex_spec`] gives for the characters that were
    /// unread before the call.
    pub fn lex(&mut self) -> (token: Token)
        requires
            old(self).wf(),
        ensures
            final(self).wf(),
            token@ == lex_spec(old(self).remaining()).token,
            final(self).remaining() == lex_spec(old(self).remaining()).rest,
            final(self).line() == old(self).line() + lex_spec(old(self).remaining()).newlines,
    {
        let ghost goal = lex_spec(self.remaining());
        let ghost line = self.lineno;
        loop
            invariant
                self.wf(),
                self.input == old(self).input,
                line == old(self).lineno,
                goal == lex_spec(old(self).remaining()),
                self.lineno >= line,
                lex_spec(self.remaining()).token == goal.token,
                lex_spec(self.remaining()).rest == goal.rest,
                lex_spec(self.remaining()).newlines + (self.lineno - line) == goal.newlines,
            decreases self.remaining().len(),
        {
            let ghost s = self.remaining();
            let ghost start = self.cursor();
            let read = self.get_char();
            if read.is_none() {
                assert(s.len() == 0);
                assert(self.remaining() =~= Seq::<char>::empty());
                return Token(TokenType::Done, String::new());
            }
            let c = read.unwrap();
            assert(s[0] == c);
            assert(self.text().skip(start).skip(1) =~= self.text().skip(start + 1));
            let mut token = String::new();
            if is_alphabetic(c) || c == '_' {
                push_char(&mut token, c);
                assert(token@ =~= self.text().subrange(start, self.pos as int));
                self.read_run(&mut token, Run::Word, Ghost(start));
                proof {
                    let n = run_end(s, 1, Run::Word);
                    assert(token@ =~= s.take(n));
                    assert(self.remaining() =~= s.skip(n));
                }
                let kind = Self::classify(&token);
                return Token(kind, token);
            } else if c >= '0' && c <= '9' {
                push_char(&mut token, c);
                assert(token@ =~= self.text().subrange(start, self.pos as int));
                self.read_run(&mut token, Run::Digits, Ghost(start));
                proof {
                    let n = run_end(s, 1, Run::Digits);
                    assert(token@ =~= s.take(n));
                    assert(self.remaining() =~= s.skip(n));
                }
                return Token(TokenType::Num, token);
            } else if is_whitespace(c) {
                if c == '\n' {
                    self.lineno = self.lineno + 1;
                }
                assert(self.remaining() =~= s.skip(1));
            } else {
                push_char(&mut token, c);
                assert(token@ =~= s.take(1));
                assert(self.remaining() =~= s.skip(1));
                if c == '(' || c == ')' || c == '{' || c == '}' || c == '[' || c == ']' || c
                    == ',' {
                    return Token(TokenType::Delimeter, token);
                } else if c == '!' || c == '.' {
                    return Token(TokenType::Misc, token);
                } else if c == '+' || c == '*' || c == '%' || c == '^' {
                    return Token(TokenType::Operator, token);
                } else if c == ':' || c == '-' || c == '/' {
                    let second = self.get_char();
                    if second.is_none() {
                        assert(s.len() == 1);
                        if c == ':' {
                            return Token(TokenType::Delimeter, token);
                        }
                        return Token(TokenType::Operator, token);
                    }
                    let d = second.unwrap();
                    assert(s[1] == d);
                    if (c == ':' && d == ':') || (c == '-' && d == '>') {
                        push_char(&mut token, d);
                        assert(token@ =~= s.take(2));
                        assert(self.remaining() =~= s.skip(2));
                        return Token(TokenType::Delimeter, token);
                    } else if c == '/' && d == '/' {
                        self.skip_comment(Ghost(start));
                        proof {
                            let n = run_end(s, 2, Run::Comment);
                            if n < s.len() {
                                assert(self.remaining() =~= s.skip(n + 1));
                            } else {
                                assert(self.remaining() =~= Seq::<char>::empty());
                                assert(lex_spec(self.remaining()).token == goal.token);
                            }
                        }
                    } else {
                        self.put_back();
                        assert(self.remaining() =~= s.skip(1));
                        if c == ':' {
                            return Token(TokenType::Delimeter, token);
                        }
                        return Token(TokenType::Operator, token);
                    }
                } else {
                    return Token(TokenType::Unknown, token);
                }
            }
        }
    }
}

} // verus!
