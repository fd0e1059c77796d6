use rlox::scanner::{Scanned, Scanner, TokenDebug};
use rlox::token_type::TokenType;

fn kinds(tokens: &[TokenDebug]) -> Vec<TokenType> {
    tokens.iter().map(|t| t.token_type).collect()
}

#[test]
fn scanning_twice_is_identical() {
    let source = "var answer = (1 + 2.5) * \"text\"; // trailing\nfun";
    let first = source.scan();
    let second = source.scan();
    assert_eq!(first.len(), second.len());
    for (a, b) in first.iter().zip(second.iter()) {
        assert_eq!(a.content, b.content);
        assert_eq!(a.line, b.line);
        assert_eq!(a.token_type, b.token_type);
    }
}

#[test]
fn scans_a_number_with_fraction() {
    let tokens = "12.5".scan();
    assert_eq!(kinds(&tokens), vec![TokenType::Number, TokenType::EndOfFile]);
    assert_eq!(tokens[0].content, "12.5");
    assert_eq!(tokens[0].line, 1);
}

#[test]
fn skips_comments_and_counts_lines() {
    let tokens = "// comment\n42".scan();
    assert_eq!(kinds(&tokens), vec![TokenType::Number, TokenType::EndOfFile]);
    assert_eq!(tokens[0].content, "42");
    assert_eq!(tokens[0].line, 2);
}

#[test]
fn keyword_fun_versus_identifier_funny() {
    let tokens = "fun".scan();
    assert_eq!(kinds(&tokens), vec![TokenType::Fun, TokenType::EndOfFile]);
    let tokens = "funny".scan();
    assert_eq!(
        kinds(&tokens),
        vec![TokenType::Identifier, TokenType::EndOfFile]
    );
    assert_eq!(tokens[0].content, "funny");
}

#[test]
fn all_keywords_are_recognized() {
    let cases = [
        ("and", TokenType::And),
        ("class", TokenType::Class),
        ("else", TokenType::Else),
        ("false", TokenType::False),
        ("for", TokenType::For),
        ("fun", TokenType::Fun),
        ("if", TokenType::If),
        ("nil", TokenType::Nil),
        ("or", TokenType::Or),
        ("print", TokenType::Print),
        ("return", TokenType::Return),
        ("super", TokenType::Super),
        ("this", TokenType::This),
        ("true", TokenType::True),
        ("var", TokenType::Var),
        ("while", TokenType::While),
    ];
    for (word, expected) in cases {
        let tokens = word.scan();
        assert_eq!(tokens[0].token_type, expected, "keyword {}", word);
    }
    // Near-keywords fall back to identifiers.
    for word in ["f", "t", "an", "ands", "classy", "_var", "truth"] {
        let tokens = word.scan();
        assert_eq!(tokens[0].token_type, TokenType::Identifier, "word {}", word);
    }
}

#[test]
fn empty_source_yields_only_end_of_file() {
    let tokens = "".scan();
    assert_eq!(kinds(&tokens), vec![TokenType::EndOfFile]);
    assert_eq!(tokens[0].line, 1);
    assert_eq!(tokens[0].content, "");
}

#[test]
fn punctuation_and_lookahead_pairs() {
    let tokens = "(){};,.-+*/! != = == < <= > >=".scan();
    assert_eq!(
        kinds(&tokens),
        vec![
            TokenType::LeftParen,
            TokenType::RightParen,
            TokenType::LeftBrace,
            TokenType::RightBrace,
            TokenType::Semicolon,
            TokenType::Comma,
            TokenType::Dot,
            TokenType::Minus,
            TokenType::Plus,
            TokenType::Star,
            TokenType::Slash,
            TokenType::Bang,
            TokenType::BangEqual,
            TokenType::Equal,
            TokenType::EqualEqual,
            TokenType::Less,
            TokenType::LessEqual,
            TokenType::Greater,
            TokenType::GreaterEqual,
            TokenType::EndOfFile,
        ]
    );
    assert_eq!(tokens[12].content, "!=");
    assert_eq!(tokens[11].content, "!");
}

#[test]
fn lookahead_pair_at_end_of_input() {
    let tokens = "!".scan();
    assert_eq!(kinds(&tokens), vec![TokenType::Bang, TokenType::EndOfFile]);
}

#[test]
fn string_literal_spans_lines() {
    let tokens = "\"a\nb\" x".scan();
    assert_eq!(
        kinds(&tokens),
        vec![
            TokenType::StringLiteral,
            TokenType::Identifier,
            TokenType::EndOfFile
        ]
    );
    assert_eq!(tokens[0].content, "a\nb");
    assert_eq!(tokens[0].line, 2);
    assert_eq!(tokens[1].content, "x");
    assert_eq!(tokens[1].line, 2);
}

#[test]
fn unterminated_string_ends_at_input_end() {
    let tokens = "\"abc".scan();
    assert_eq!(
        kinds(&tokens),
        vec![TokenType::StringLiteral, TokenType::EndOfFile]
    );
    assert_eq!(tokens[0].content, "abc");
}

#[test]
fn comment_at_end_of_input() {
    let tokens = "42 // no newline after".scan();
    assert_eq!(kinds(&tokens), vec![TokenType::Number, TokenType::EndOfFile]);
    assert_eq!(tokens[0].content, "42");
}

#[test]
fn trailing_dot_is_not_part_of_the_number() {
    let tokens = "3.".scan();
    assert_eq!(
        kinds(&tokens),
        vec![TokenType::Number, TokenType::Dot, TokenType::EndOfFile]
    );
    assert_eq!(tokens[0].content, "3");
    assert_eq!(tokens[1].content, ".");

    let tokens = "3.x".scan();
    assert_eq!(
        kinds(&tokens),
        vec![
            TokenType::Number,
            TokenType::Dot,
            TokenType::Identifier,
            TokenType::EndOfFile
        ]
    );
    assert_eq!(tokens[0].content, "3");
    assert_eq!(tokens[2].content, "x");
}

#[test]
fn unrecognized_characters_are_skipped() {
    let tokens = "4 # 2".scan();
    assert_eq!(
        kinds(&tokens),
        vec![TokenType::Number, TokenType::Number, TokenType::EndOfFile]
    );
    assert_eq!(tokens[0].content, "4");
    assert_eq!(tokens[1].content, "2");
}

#[test]
fn peek_shows_next_character_or_sentinel() {
    let scanner = Scanner::new("ab");
    assert_eq!(scanner.peek(), 'a');
    let empty = Scanner::new("");
    assert_eq!(empty.peek(), '@');
}

#[test]
fn next_stops_after_end_of_file_token() {
    let mut scanner = Scanner::new("1");
    let first = scanner.next().unwrap();
    assert_eq!(first.token_type, TokenType::Number);
    let second = scanner.next().unwrap();
    assert_eq!(second.token_type, TokenType::EndOfFile);
    assert!(scanner.next().is_none());
    assert!(scanner.next().is_none());
}
