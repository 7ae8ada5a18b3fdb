use rk_frontend::lexer::Lexer;
use rk_frontend::token::{Token, TokenType};

fn lex(text: &str) -> Lexer {
    let mut lexer = Lexer::new();
    lexer.load_file(&text.to_string());
    lexer
}

fn lines(tokens: &Vec<Token>) -> Vec<usize> {
    tokens.iter().map(|token| token.line_nr()).collect()
}

fn number(text: &str) -> TokenType {
    TokenType::from_string(text)
}

fn ident(text: &str) -> TokenType {
    TokenType::Ident(text.to_string())
}

fn kinds(tokens: &Vec<Token>) -> Vec<&TokenType> {
    tokens.iter().map(|token| token.token_type()).collect()
}

#[test]
fn a_new_lexer_is_empty() {
    let lexer = Lexer::new();
    assert!(lexer.tokens().is_empty());
    assert_eq!(lexer.buffer(), "");
    assert_eq!(lexer.line_nr(), 0);
}

#[test]
fn empty_input_gives_no_tokens() {
    let lexer = lex("");
    assert_eq!(lexer.tokens().len(), 0);
    assert_eq!(lexer.line_nr(), 0);
}

#[test]
fn white_space_gives_no_tokens_but_counts_lines() {
    let lexer = lex(" \t\n  \n\r\n ");
    assert_eq!(lexer.tokens().len(), 0);
    assert_eq!(lexer.line_nr(), 3);
}

#[test]
fn keywords_and_a_number_over_two_lines() {
    // the point is no alphanumeric character: it parts the two digits and
    // is a symbol of its own
    let lexer = lex("func\nreturn 3.5");
    let tokens = lexer.tokens();
    assert_eq!(
        kinds(tokens),
        vec![
            &TokenType::KeywordFunc,
            &TokenType::KeywordReturn,
            &number("3"),
            &TokenType::Ascii('.'),
            &number("5"),
        ]
    );
    assert_eq!(lines(tokens), vec![0, 1, 1, 1, 1]);
    assert_eq!(lexer.line_nr(), 1);
}

#[test]
fn keywords_and_a_whole_number_over_two_lines() {
    let lexer = lex("func\nreturn 35");
    let tokens = lexer.tokens();
    assert_eq!(
        kinds(tokens),
        vec![&TokenType::KeywordFunc, &TokenType::KeywordReturn, &number("35")]
    );
    assert_eq!(lines(tokens), vec![0, 1, 1]);
    match tokens[2].token_type() {
        TokenType::Number(numeral) => assert_eq!(numeral.as_str().parse::<f64>().unwrap(), 35.0),
        _ => unreachable!(),
    }
}

#[test]
fn a_sum_of_two_numbers() {
    let lexer = lex("1 + 2");
    let tokens = lexer.tokens();
    assert_eq!(kinds(tokens), vec![&number("1"), &TokenType::Ascii('+'), &number("2")]);
    assert_eq!(lines(tokens), vec![0, 0, 0]);
    match tokens[0].token_type() {
        TokenType::Number(numeral) => assert_eq!(numeral.as_str().parse::<f64>().unwrap(), 1.0),
        _ => unreachable!(),
    }
    match tokens[2].token_type() {
        TokenType::Number(numeral) => assert_eq!(numeral.as_str().parse::<f64>().unwrap(), 2.0),
        _ => unreachable!(),
    }
}

#[test]
fn a_word_runs_to_the_end_of_the_input() {
    let lexer = lex("abc");
    assert_eq!(kinds(lexer.tokens()), vec![&ident("abc")]);
    let lexer = lex("a");
    assert_eq!(kinds(lexer.tokens()), vec![&ident("a")]);
}

#[test]
fn a_word_is_one_identifier_whatever_follows_its_first_letter() {
    let lexer = lex("x1 y22z");
    assert_eq!(kinds(lexer.tokens()), vec![&ident("x1"), &ident("y22z")]);
}

#[test]
fn a_digit_led_word_with_letters_is_an_error_token() {
    let lexer = lex("1x + 9x9\n2");
    let tokens = lexer.tokens();
    assert_eq!(
        kinds(tokens),
        vec![&TokenType::Error, &TokenType::Ascii('+'), &TokenType::Error, &number("2")]
    );
    assert_eq!(lines(tokens), vec![0, 0, 0, 1]);
}

#[test]
fn an_exponent_without_sign_stays_in_the_word() {
    let lexer = lex("1e5 1e+5");
    assert_eq!(
        kinds(lexer.tokens()),
        vec![&number("1e5"), &TokenType::Error, &TokenType::Ascii('+'), &number("5")]
    );
}

#[test]
fn every_symbol_is_a_token_of_its_own() {
    let lexer = lex("a==b;");
    assert_eq!(
        kinds(lexer.tokens()),
        vec![
            &ident("a"),
            &TokenType::Ascii('='),
            &TokenType::Ascii('='),
            &ident("b"),
            &TokenType::Ascii(';'),
        ]
    );
}

#[test]
fn a_function_definition() {
    let lexer = lex("foreign func f(x) {\n\tif x return 1 else return y2\n}\n");
    let tokens = lexer.tokens();
    assert_eq!(
        kinds(tokens),
        vec![
            &TokenType::KeywordForeign,
            &TokenType::KeywordFunc,
            &ident("f"),
            &TokenType::Ascii('('),
            &ident("x"),
            &TokenType::Ascii(')'),
            &TokenType::Ascii('{'),
            &TokenType::KeywordIf,
            &ident("x"),
            &TokenType::KeywordReturn,
            &number("1"),
            &TokenType::KeywordElse,
            &TokenType::KeywordReturn,
            &ident("y2"),
            &TokenType::Ascii('}'),
        ]
    );
    assert_eq!(lines(tokens), vec![0, 0, 0, 0, 0, 0, 0, 1, 1, 1, 1, 1, 1, 1, 2]);
    assert_eq!(lexer.line_nr(), 3);
}

#[test]
fn the_token_count_is_the_count_of_units() {
    // words: ab, 12, c; symbols: + ( ) ! ?
    let lexer = lex("  ab+12 (c)\n!\t?  ");
    assert_eq!(lexer.tokens().len(), 8);
    let lexer = lex("++++");
    assert_eq!(lexer.tokens().len(), 4);
    let lexer = lex("aaaa");
    assert_eq!(lexer.tokens().len(), 1);
    let lexer = lex("a a a a");
    assert_eq!(lexer.tokens().len(), 4);
}

#[test]
fn the_line_of_a_token_is_the_count_of_line_feeds_before_it() {
    let text = "a\n\nb c\n\n\n+\nd";
    let lexer = lex(text);
    let tokens = lexer.tokens();
    assert_eq!(lines(tokens), vec![0, 2, 2, 5, 6]);
    for (token, start) in tokens.iter().zip([0usize, 3, 5, 9, 11]) {
        let before = text.chars().take(start).filter(|c| *c == '\n').count();
        assert_eq!(token.line_nr(), before);
    }
}

#[test]
fn only_the_line_feed_ends_a_line() {
    let lexer = lex("a\rb\u{2028}c\u{b}d\u{c}e\u{85}f");
    assert_eq!(lines(lexer.tokens()), vec![0, 0, 0, 0, 0, 0]);
    assert_eq!(lexer.line_nr(), 0);
}

#[test]
fn the_same_buffer_gives_the_same_tokens() {
    let text = "func main() {\n  return 4e2 + x1 - 9z\n}";
    let first = lex(text);
    let second = lex(text);
    assert_eq!(first.tokens(), second.tokens());
    assert_eq!(first.line_nr(), second.line_nr());
    assert_eq!(first.buffer(), second.buffer());
}

#[test]
fn a_second_buffer_goes_on_where_the_first_ended() {
    let mut lexer = Lexer::new();
    lexer.load_file(&"a\nb\n".to_string());
    lexer.load_file(&"c\nd".to_string());
    let tokens = lexer.tokens();
    assert_eq!(kinds(tokens), vec![&ident("a"), &ident("b"), &ident("c"), &ident("d")]);
    assert_eq!(lines(tokens), vec![0, 1, 2, 3]);
    assert_eq!(lexer.line_nr(), 3);
    assert_eq!(lexer.buffer(), "c\nd");
}

#[test]
fn text_of_other_scripts() {
    let lexer = lex("数 = ٣ + été\u{a0}«x»");
    assert_eq!(
        kinds(lexer.tokens()),
        vec![
            &ident("数"),
            &TokenType::Ascii('='),
            &TokenType::Error,
            &TokenType::Ascii('+'),
            &ident("été"),
            &TokenType::Ascii('«'),
            &ident("x"),
            &TokenType::Ascii('»'),
        ]
    );
}

#[test]
fn the_lexeme_is_the_whole_run() {
    let lexer = lex("alpha1beta2 12345678901234567890");
    let tokens = lexer.tokens();
    assert_eq!(tokens[0].token_type(), &ident("alpha1beta2"));
    match tokens[1].token_type() {
        TokenType::Number(numeral) => assert_eq!(numeral.as_str(), "12345678901234567890"),
        _ => unreachable!(),
    }
}
