use hack_toolchain::jack_token::{ReservedKeywords, Symbols, TokenType};
use hack_toolchain::tokenizer::Tokenizer;

#[test]
fn skip_whitespace() {
    let mut tokenizer = Tokenizer::new();
    let source = "    ";
    let source = source.chars().collect::<Vec<char>>();
    let output = tokenizer.skip_whitespace_and_comments(&source);
    assert_eq!(tokenizer.current, 4);
    assert!(output.is_none());

    let mut tokenizer = Tokenizer::new();
    let source = "\n\n\n";
    let source = source.chars().collect::<Vec<char>>();
    let output = tokenizer.skip_whitespace_and_comments(&source);
    assert_eq!(tokenizer.current, 3);
    assert_eq!(tokenizer.line, 4);
    assert!(output.is_none());
}
#[test]
fn skip_comments() {
    let mut tokenizer = Tokenizer::new();
    let source = "//wow something here";
    let source = source.chars().collect::<Vec<char>>();
    let output = tokenizer.skip_whitespace_and_comments(&source);
    assert_eq!(tokenizer.current, 20);
    assert!(output.is_none());

    let mut tokenizer = Tokenizer::new();
    let source = "//wow something here\n";
    let source = source.chars().collect::<Vec<char>>();
    let output = tokenizer.skip_whitespace_and_comments(&source);
    assert_eq!(tokenizer.current, 21);
    assert_eq!(tokenizer.line, 2);
    assert!(output.is_none());

    let mut tokenizer = Tokenizer::new();
    let source = "/* wow a comment */\n";
    let source = source.chars().collect::<Vec<char>>();
    let output = tokenizer.skip_whitespace_and_comments(&source);
    assert_eq!(tokenizer.current, 20);
    assert_eq!(tokenizer.line, 2);
    assert!(output.is_none());

    let mut tokenizer = Tokenizer::new();
    let source = "/** wow a funny * comment */\n";
    let source = source.chars().collect::<Vec<char>>();
    let output = tokenizer.skip_whitespace_and_comments(&source);
    assert_eq!(tokenizer.current, 29);
    assert_eq!(tokenizer.line, 2);
    assert!(output.is_none());
}
#[test]
fn not_closed_comment() {
    let mut tokenizer = Tokenizer::new();
    let source = "/** wow a funny * comment";
    let source = source.chars().collect::<Vec<char>>();
    let output = tokenizer.skip_whitespace_and_comments(&source);
    assert_eq!(tokenizer.current, 25);
    assert!(output.is_some());
    assert_eq!(output.unwrap(), "Expected comment opened at 0, to close");
}
#[test]
fn scan_whitespace() {
    let mut tokenizer = Tokenizer::new();
    let source = "  \n  \n";
    let source = source.chars().collect::<Vec<char>>();
    let output = tokenizer.scan_token(&source);
    assert!(output.is_ok());
    assert!(matches!(output.unwrap()._type, TokenType::EOF));

    let mut tokenizer = Tokenizer::new();
    let source = "// wow funny \n";
    let source = source.chars().collect::<Vec<char>>();
    let output = tokenizer.scan_token(&source);
    assert_eq!(tokenizer.line, 2);
    assert!(output.is_ok());
    assert!(matches!(output.unwrap()._type, TokenType::EOF));
}
#[test]
fn scan_not_closed_comment() {
    let mut tokenizer = Tokenizer::new();
    let source = "/** wow a funny * comment";
    let source = source.chars().collect::<Vec<char>>();
    let output = tokenizer.scan_token(&source);
    assert!(output.is_err());
    assert_eq!(
        output.err().unwrap(),
        "Expected comment opened at 0, to close"
    );
}
#[test]
fn scan_unknown_token() {
    let mut tokenizer = Tokenizer::new();
    let source = "%";
    let source = source.chars().collect::<Vec<char>>();
    let output = tokenizer.scan_token(&source);
    assert!(output.is_err());
    assert_eq!(output.err().unwrap(), "Unknown token at 0, %");
}
#[test]
fn scan_string_token() {
    let mut tokenizer = Tokenizer::new();
    let source = "\"hello world there!\"";
    let source = source.chars().collect::<Vec<char>>();
    let output = tokenizer.scan_token(&source);
    assert!(output.is_ok());
    assert!(matches!(output.unwrap()._type, TokenType::String));
}
#[test]
fn scan_string_not_closed() {
    let mut tokenizer = Tokenizer::new();
    let source = "\"hello world there!";
    let source = source.chars().collect::<Vec<char>>();
    let output = tokenizer.scan_token(&source);
    assert!(output.is_err());
    assert_eq!(
        output.err().unwrap(),
        "String opened at 0, not closed at 19"
    );
}
#[test]
fn scan_integer() {
    let mut tokenizer = Tokenizer::new();
    let source = "1234";
    let source = source.chars().collect::<Vec<char>>();
    let output = tokenizer.scan_token(&source);
    assert!(output.is_ok());
    assert!(matches!(output.unwrap()._type, TokenType::Integer(1234)));
}
#[test]
fn scan_overflow_integer() {
    let mut tokenizer = Tokenizer::new();
    let source = "1234567";
    let source = source.chars().collect::<Vec<char>>();
    let output = tokenizer.scan_token(&source);
    assert!(output.is_err());
    assert_eq!(
        output.err().unwrap(),
        "Integer 1234567 at 0 is too large, should be within 0 and 32767"
    );
}
#[test]
fn scan_keyword() {
    let mut tokenizer = Tokenizer::new();
    let source = "class";
    let source = source.chars().collect::<Vec<char>>();
    let output = tokenizer.scan_token(&source);
    assert!(output.is_ok());
    assert!(matches!(
        output.unwrap()._type,
        TokenType::Keyword(ReservedKeywords::Class)
    ));

    let mut tokenizer = Tokenizer::new();
    let source = "boolean";
    let source = source.chars().collect::<Vec<char>>();
    let output = tokenizer.scan_token(&source);
    assert!(output.is_ok());
    assert!(matches!(
        output.unwrap()._type,
        TokenType::Keyword(ReservedKeywords::Boolean)
    ));
}
#[test]
fn scan_identifier() {
    let mut tokenizer = Tokenizer::new();
    let source = "abc";
    let source = source.chars().collect::<Vec<char>>();
    let output = tokenizer.scan_token(&source);
    assert!(output.is_ok());
    assert!(matches!(output.unwrap()._type, TokenType::Identifier));
}
#[test]
fn generate_tokens_identifier() {
    let source = "abc".to_string();
    let output = Tokenizer::generate_tokens(&source);
    assert!(output.is_ok());
    assert_eq!(output.clone().unwrap().len(), 2);
    assert!(matches!(
        output.clone().unwrap()[0]._type,
        TokenType::Identifier
    ));
    assert!(matches!(output.clone().unwrap()[1]._type, TokenType::EOF));
    assert_eq!(
        "abc",
        output.unwrap()[0].get_source(&source.chars().collect::<Vec<char>>())
    )
}
#[test]
fn generate_tokens_numbers() {
    let source = "-21".to_string();
    let output = Tokenizer::generate_tokens(&source);
    assert!(output.is_ok());
    assert_eq!(output.clone().unwrap().len(), 3);
    assert!(matches!(
        output.clone().unwrap()[0]._type,
        TokenType::Symbol(Symbols::Minus)
    ));
    assert!(matches!(
        output.clone().unwrap()[1]._type,
        TokenType::Integer(21)
    ));
}
#[test]
fn generate_keywords() {
    let source = "class let boolean".to_string();
    let output = Tokenizer::generate_tokens(&source);
    assert!(output.is_ok());
    assert_eq!(output.clone().unwrap().len(), 4);
    assert!(matches!(
        output.clone().unwrap()[0]._type,
        TokenType::Keyword(ReservedKeywords::Class)
    ));
    assert!(matches!(output.clone().unwrap()[0].start, 0));
    assert!(matches!(output.clone().unwrap()[0].length, 5));
    assert!(matches!(
        output.clone().unwrap()[1]._type,
        TokenType::Keyword(ReservedKeywords::Let)
    ));
    assert!(matches!(
        output.clone().unwrap()[2]._type,
        TokenType::Keyword(ReservedKeywords::Boolean)
    ));
}


#[test]
fn tokens_carry_lines_and_positions() {
    let source = "let x = 10; // c\n/* block\n */ do \"s\"".to_string();
    let tokens = Tokenizer::generate_tokens(&source).unwrap();
    let kinds: Vec<TokenType> = tokens.iter().map(|t| t._type).collect();
    assert_eq!(
        kinds,
        vec![
            TokenType::Keyword(ReservedKeywords::Let),
            TokenType::Identifier,
            TokenType::Symbol(Symbols::Equal),
            TokenType::Integer(10),
            TokenType::Symbol(Symbols::SemiColon),
            TokenType::Keyword(ReservedKeywords::Do),
            TokenType::String,
            TokenType::EOF,
        ]
    );
    assert_eq!(tokens[4].line, 1);
    assert_eq!(tokens[5].line, 2);
    assert_eq!(tokens[3].start, 8);
    assert_eq!(tokens[3].length, 2);
    let chars = source.chars().collect::<Vec<char>>();
    assert_eq!(tokens[6].get_source(&chars), "s");
}

#[test]
fn integer_too_large_for_the_machine() {
    let out = Tokenizer::generate_tokens(&"99999999999999999999999".to_string());
    assert_eq!(
        out,
        Err("Failed to tokenize integer at 0, number too large to fit in target type".to_string())
    );
}
