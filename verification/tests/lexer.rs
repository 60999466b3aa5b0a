use sonny::lexer::{Lexer, Token, TokenType};

fn tokens(text: &str) -> Vec<Token> {
    let mut lexer = Lexer::new(text.as_bytes().to_vec());
    let mut out = Vec::new();
    loop {
        let token = lexer.lex();
        let done = token.0 == TokenType::Done;
        out.push(token);
        if done {
            return out;
        }
    }
}

fn tok(kind: TokenType, text: &str) -> Token {
    Token(kind, text.to_string())
}

#[test]
fn empty_input_is_done() {
    assert_eq!(tokens(""), vec![tok(TokenType::Done, "")]);
}

#[test]
fn digits_are_one_number_and_the_point_is_apart() {
    assert_eq!(
        tokens("123.45"),
        vec![
            tok(TokenType::Num, "123"),
            tok(TokenType::Misc, "."),
            tok(TokenType::Num, "45"),
            tok(TokenType::Done, ""),
        ]
    );
}

#[test]
fn a_run_at_the_end_of_input_is_a_token() {
    assert_eq!(tokens("out"), vec![tok(TokenType::Keyword, "out"), tok(TokenType::Done, "")]);
    assert_eq!(tokens("007"), vec![tok(TokenType::Num, "007"), tok(TokenType::Done, "")]);
    assert_eq!(tokens(":"), vec![tok(TokenType::Delimeter, ":"), tok(TokenType::Done, "")]);
    assert_eq!(tokens("-"), vec![tok(TokenType::Operator, "-"), tok(TokenType::Done, "")]);
    assert_eq!(tokens("/"), vec![tok(TokenType::Operator, "/"), tok(TokenType::Done, "")]);
}

#[test]
fn note_literals() {
    for text in ["A", "B", "C", "D", "E", "F", "Cb", "C4", "Cb4", "F0", "Ab9"] {
        assert_eq!(tokens(text)[0], tok(TokenType::NoteString, text), "{}", text);
    }
}

#[test]
fn runs_that_only_look_like_notes_are_identifiers() {
    for text in ["C44", "Cb44", "Cb4xy", "C4x", "Cx", "G", "G3", "H", "c4", "Cbb", "A_"] {
        assert_eq!(tokens(text)[0], tok(TokenType::Id, text), "{}", text);
    }
}

#[test]
fn a_sharp_sign_ends_the_run() {
    assert_eq!(
        tokens("C#4"),
        vec![
            tok(TokenType::NoteString, "C"),
            tok(TokenType::Unknown, "#"),
            tok(TokenType::Num, "4"),
            tok(TokenType::Done, ""),
        ]
    );
}

#[test]
fn pi_is_a_number() {
    assert_eq!(tokens("pi")[0], tok(TokenType::Num, "pi"));
    assert_eq!(tokens("pie")[0], tok(TokenType::Id, "pie"));
}

#[test]
fn keywords() {
    for text in ["time", "sample_rate", "sin", "cos", "ceil", "floor", "abs", "end", "out"] {
        assert_eq!(tokens(text)[0], tok(TokenType::Keyword, text), "{}", text);
    }
    for text in ["tempo", "use", "log", "min", "max", "q", "_", "_a1", "since"] {
        assert_eq!(tokens(text)[0], tok(TokenType::Id, text), "{}", text);
    }
}

#[test]
fn punctuation() {
    assert_eq!(
        tokens("(){}[],"),
        vec![
            tok(TokenType::Delimeter, "("),
            tok(TokenType::Delimeter, ")"),
            tok(TokenType::Delimeter, "{"),
            tok(TokenType::Delimeter, "}"),
            tok(TokenType::Delimeter, "["),
            tok(TokenType::Delimeter, "]"),
            tok(TokenType::Delimeter, ","),
            tok(TokenType::Done, ""),
        ]
    );
    assert_eq!(
        tokens("! . + * % ^ - /"),
        vec![
            tok(TokenType::Misc, "!"),
            tok(TokenType::Misc, "."),
            tok(TokenType::Operator, "+"),
            tok(TokenType::Operator, "*"),
            tok(TokenType::Operator, "%"),
            tok(TokenType::Operator, "^"),
            tok(TokenType::Operator, "-"),
            tok(TokenType::Operator, "/"),
            tok(TokenType::Done, ""),
        ]
    );
}

#[test]
fn compound_punctuation() {
    assert_eq!(
        tokens("a::b:c->d-e"),
        vec![
            tok(TokenType::Id, "a"),
            tok(TokenType::Delimeter, "::"),
            tok(TokenType::Id, "b"),
            tok(TokenType::Delimeter, ":"),
            tok(TokenType::Id, "c"),
            tok(TokenType::Delimeter, "->"),
            tok(TokenType::Id, "d"),
            tok(TokenType::Operator, "-"),
            tok(TokenType::Id, "e"),
            tok(TokenType::Done, ""),
        ]
    );
    assert_eq!(
        tokens(":::"),
        vec![
            tok(TokenType::Delimeter, "::"),
            tok(TokenType::Delimeter, ":"),
            tok(TokenType::Done, ""),
        ]
    );
}

#[test]
fn an_unknown_character_is_a_token_of_one_character() {
    assert_eq!(
        tokens("|a|"),
        vec![
            tok(TokenType::Unknown, "|"),
            tok(TokenType::Id, "a"),
            tok(TokenType::Unknown, "|"),
            tok(TokenType::Done, ""),
        ]
    );
    assert_eq!(tokens("?")[0], tok(TokenType::Unknown, "?"));
}

#[test]
fn comments_are_skipped() {
    assert_eq!(
        tokens("a // b c\n d"),
        vec![tok(TokenType::Id, "a"), tok(TokenType::Id, "d"), tok(TokenType::Done, "")]
    );
    assert_eq!(tokens("a // to the end"), vec![tok(TokenType::Id, "a"), tok(TokenType::Done, "")]);
    assert_eq!(
        tokens("6/3"),
        vec![
            tok(TokenType::Num, "6"),
            tok(TokenType::Operator, "/"),
            tok(TokenType::Num, "3"),
            tok(TokenType::Done, ""),
        ]
    );
}

#[test]
fn lines_are_counted_from_one() {
    let mut lexer = Lexer::new(b"a\nb // c\n\n  d".to_vec());
    assert_eq!(lexer.lineno(), 1);
    assert_eq!(lexer.lex(), tok(TokenType::Id, "a"));
    assert_eq!(lexer.lineno(), 1);
    assert_eq!(lexer.lex(), tok(TokenType::Id, "b"));
    assert_eq!(lexer.lineno(), 2);
    assert_eq!(lexer.lex(), tok(TokenType::Id, "d"));
    assert_eq!(lexer.lineno(), 4);
    assert_eq!(lexer.lex(), tok(TokenType::Done, ""));
    assert_eq!(lexer.lex(), tok(TokenType::Done, ""));
    assert_eq!(lexer.lineno(), 4);
}

#[test]
fn bytes_beyond_ascii_are_characters_of_their_own() {
    // 0xE9 is a letter, 0xA0 is white space, 0xD7 is neither.
    let mut lexer = Lexer::new(vec![b'a', 0xE9, 0xA0, 0xD7]);
    assert_eq!(lexer.lex(), Token(TokenType::Id, "a\u{e9}".to_string()));
    assert_eq!(lexer.lex(), Token(TokenType::Unknown, "\u{d7}".to_string()));
    assert_eq!(lexer.lex(), tok(TokenType::Done, ""));
}

#[test]
fn a_token_can_be_cloned() {
    let token = tok(TokenType::Id, "name");
    assert_eq!(token.clone(), token);
}
