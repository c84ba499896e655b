use cahn_lang::interner::StringInterner;
use cahn_lang::lexer::Lexer;
use cahn_lang::token::{Token, TokenPos, TokenType};

fn all_tokens(source: &str) -> (Vec<Token>, Lexer) {
    let mut lexer = Lexer::new(source, StringInterner::new());
    let mut tokens = Vec::new();
    loop {
        let t = lexer.lex_token();
        tokens.push(t);
        if t.token_type == TokenType::Eof {
            break;
        }
    }
    (tokens, lexer)
}

fn text(lexer: &Lexer, t: &Token) -> String {
    lexer.interner().text_of(t.lexeme).iter().collect()
}

fn kinds(source: &str) -> Vec<TokenType> {
    all_tokens(source).0.iter().map(|t| t.token_type).collect()
}

#[test]
fn lexing_test() {
    let source = "2 + 3 -     1";
    let interner = StringInterner::new();

    let mut lexer = Lexer::new(source, interner);
    assert_eq!(lexer.lex_token().token_type, TokenType::Number);
    assert_eq!(lexer.lex_token().token_type, TokenType::Plus);
    assert_eq!(lexer.lex_token().token_type, TokenType::Number);
    assert_eq!(lexer.lex_token().token_type, TokenType::Minus);
    assert_eq!(lexer.lex_token().token_type, TokenType::Number);
}

#[test]
fn keywords_and_identifiers() {
    let names = "let nil if else print true false and or not while fn return lets _x";
    let expected = vec![
        TokenType::Let,
        TokenType::Nil,
        TokenType::If,
        TokenType::Else,
        TokenType::Print,
        TokenType::True,
        TokenType::False,
        TokenType::And,
        TokenType::Or,
        TokenType::Not,
        TokenType::While,
        TokenType::Fn,
        TokenType::Return,
        TokenType::Identifier,
        TokenType::Identifier,
        TokenType::Eof,
    ];
    assert_eq!(kinds(names), expected);
}

#[test]
fn two_character_operators() {
    let expected = vec![
        TokenType::DoubleEqual,
        TokenType::ColonEqual,
        TokenType::BangEqual,
        TokenType::LessEqual,
        TokenType::GreaterEqual,
        TokenType::DoubleStar,
        TokenType::DoubleSlash,
        TokenType::DoubleDot,
        TokenType::Less,
        TokenType::Greater,
        TokenType::Star,
        TokenType::Slash,
        TokenType::BadCharacter,
        TokenType::BadCharacter,
        TokenType::BadCharacter,
        TokenType::BadCharacter,
        TokenType::Eof,
    ];
    assert_eq!(kinds("== := != <= >= ** // .. < > * / = : ! ."), expected);
}

#[test]
fn numbers_keep_a_dot_only_before_digits() {
    let (tokens, lexer) = all_tokens("12.5 7. 3..4");
    let texts: Vec<String> = tokens.iter().map(|t| text(&lexer, t)).collect();
    assert_eq!(texts, vec!["12.5", "7", ".", "3", "..", "4", ""]);
    assert_eq!(tokens[1].token_type, TokenType::Number);
    assert_eq!(tokens[2].token_type, TokenType::BadCharacter);
}

#[test]
fn comments_are_skipped_and_nest() {
    assert_eq!(kinds("1 # line comment\n2"), vec![TokenType::Number, TokenType::Number, TokenType::Eof]);
    assert_eq!(kinds("1 #/ outer #/ inner /# still comment /# 2"), vec![TokenType::Number, TokenType::Number, TokenType::Eof]);
    assert_eq!(kinds("#/ never closed"), vec![TokenType::Eof]);
}

#[test]
fn strings_keep_their_quotes() {
    let (tokens, lexer) = all_tokens("\"hi there\" x");
    assert_eq!(tokens[0].token_type, TokenType::String);
    assert_eq!(text(&lexer, &tokens[0]), "\"hi there\"");
    assert_eq!(tokens[1].token_type, TokenType::Identifier);
}

#[test]
fn unterminated_string_is_a_bad_token() {
    let (tokens, lexer) = all_tokens("\"open");
    assert_eq!(tokens[0].token_type, TokenType::BadCharacter);
    assert_eq!(text(&lexer, &tokens[0]), "\"open");
    assert_eq!(tokens[1].token_type, TokenType::Eof);
}

#[test]
fn positions_count_lines_and_columns() {
    let (tokens, _) = all_tokens("let x\n  := é 5");
    assert_eq!(tokens[0].pos, TokenPos::new(1, 1));
    assert_eq!(tokens[1].pos, TokenPos::new(1, 5));
    assert_eq!(tokens[2].pos, TokenPos::new(2, 3));
    assert_eq!(tokens[3].pos, TokenPos::new(2, 6));
    assert_eq!(tokens[4].pos, TokenPos::new(2, 8));
}

#[test]
fn eof_repeats_past_the_end() {
    let mut lexer = Lexer::new("x", StringInterner::new());
    assert_eq!(lexer.lex_token().token_type, TokenType::Identifier);
    for _ in 0..3 {
        assert_eq!(lexer.lex_token().token_type, TokenType::Eof);
    }
}

#[test]
fn equal_lexemes_share_an_atom() {
    let (tokens, _) = all_tokens("abc + abc");
    assert_eq!(tokens[0].lexeme, tokens[2].lexeme);
    assert_ne!(tokens[0].lexeme, tokens[1].lexeme);
}

#[test]
fn printed_tokens_lex_again_to_the_same_stream() {
    let source = "let xs := [1, 2.5]   # comment\nwhile xs[0] <= 3 { print \"a b\" .. xs ; xs := not true }";
    let (tokens, lexer) = all_tokens(source);
    let printed: Vec<String> = tokens.iter().map(|t| text(&lexer, t)).collect();
    let again_source = printed.join(" ");
    let (again, lexer2) = all_tokens(&again_source);
    assert_eq!(tokens.len(), again.len());
    for (a, b) in tokens.iter().zip(again.iter()) {
        assert_eq!(a.token_type, b.token_type);
        assert_eq!(text(&lexer, a), text(&lexer2, b));
    }
}

#[test]
fn keywords_are_found_in_a_used_interner() {
    let mut interner = StringInterner::new();
    let earlier = interner.intern(&"let".chars().collect::<Vec<char>>());
    let mut lexer = Lexer::new("let x", interner);
    let t = lexer.lex_token();
    assert_eq!(t.token_type, TokenType::Let);
    assert_eq!(t.lexeme, earlier);
    assert_eq!(lexer.lex_token().token_type, TokenType::Identifier);
}
