use minilox::scan;
use minilox::scanner::consume_until;
use minilox::scanner::consume_while;
use minilox::scanner::is_word;
use minilox::scanner::CharCond;
use minilox::ErrorState;
use minilox::Token;
use minilox::TokenData;

#[test]
fn macro_test() {
    let mut v: Vec<Token> = Vec::new();
    v.push(Token::new(TokenData::If, 0));
    v.push(Token::new(TokenData::Else, 1));
    assert_eq!(
        v,
        vec![Token::new(TokenData::If, 0), Token::new(TokenData::Else, 1)]
    );
}

#[test]
fn singles() {
    let actual_tokens = scan(
        "( { } )
            , . - + ; / *",
        0,
    )
    .unwrap();
    assert_eq!(
        actual_tokens,
        vec![
            Token::new(TokenData::LeftParen, 0),
            Token::new(TokenData::LeftBrace, 0),
            Token::new(TokenData::RightBrace, 0),
            Token::new(TokenData::RightParen, 0),
            Token::new(TokenData::Comma, 1),
            Token::new(TokenData::Dot, 1),
            Token::new(TokenData::Minus, 1),
            Token::new(TokenData::Plus, 1),
            Token::new(TokenData::Semicolon, 1),
            Token::new(TokenData::Slash, 1),
            Token::new(TokenData::Star, 1),
            Token::new(TokenData::Eof, 1),
        ]
    );
}

#[test]
fn doubles() {
    let actual_tokens = scan(
        "! !=
            = ==
            > >=
            < <=",
        0,
    )
    .unwrap();
    assert_eq!(
        actual_tokens,
        vec![
            Token::new(TokenData::Bang, 0),
            Token::new(TokenData::BangEqual, 0),
            Token::new(TokenData::Equal, 1),
            Token::new(TokenData::EqualEqual, 1),
            Token::new(TokenData::Greater, 2),
            Token::new(TokenData::GreaterEqual, 2),
            Token::new(TokenData::Less, 3),
            Token::new(TokenData::LessEqual, 3),
            Token::new(TokenData::Eof, 3),
        ]
    );
}

#[test]
fn scanner_literals() {
    let actual_tokens = scan(
        "id
            \"literal\"
            123
            4.0",
        0,
    )
    .unwrap();
    assert_eq!(
        actual_tokens,
        vec![
            Token::new(TokenData::Identifier("id".to_string()), 0),
            Token::new(TokenData::StringToken("literal".to_string()), 1),
            Token::new(TokenData::Number(123.0f32.to_bits()), 2),
            Token::new(TokenData::Number(4.0f32.to_bits()), 3),
            Token::new(TokenData::Eof, 3),
        ]
    );
}

#[test]
fn keywords() {
    let actual_tokens = scan(
        "if else
            for while
            true false
            class this super
            and or
            print
            fun return
            var nil",
        0,
    )
    .unwrap();
    assert_eq!(
        actual_tokens,
        vec![
            Token::new(TokenData::If, 0),
            Token::new(TokenData::Else, 0),
            Token::new(TokenData::For, 1),
            Token::new(TokenData::While, 1),
            Token::new(TokenData::True, 2),
            Token::new(TokenData::False, 2),
            Token::new(TokenData::Class, 3),
            Token::new(TokenData::This, 3),
            Token::new(TokenData::Super, 3),
            Token::new(TokenData::And, 4),
            Token::new(TokenData::Or, 4),
            Token::new(TokenData::Print, 5),
            Token::new(TokenData::Fun, 6),
            Token::new(TokenData::Return, 6),
            Token::new(TokenData::Var, 7),
            Token::new(TokenData::Nil, 7),
            Token::new(TokenData::Eof, 7),
        ]
    );
}

#[test]
fn comments() {
    let actual_tokens = scan(
        "/
            // ignored",
        0,
    )
    .unwrap();
    assert_eq!(
        actual_tokens,
        vec![Token::new(TokenData::Slash, 0), Token::new(TokenData::Eof, 1)]
    );
}

#[test]
fn starting_line_offsets_all_tokens() {
    let actual_tokens = scan("+\n-", 7).unwrap();
    assert_eq!(
        actual_tokens,
        vec![
            Token::new(TokenData::Plus, 7),
            Token::new(TokenData::Minus, 8),
            Token::new(TokenData::Eof, 8),
        ]
    );
}

#[test]
fn unterminated_string_is_a_scan_error() {
    let err = scan("\"never closed", 0).unwrap_err();
    match err {
        ErrorState::ScanErrs(errs) => {
            assert_eq!(errs.len(), 1);
            assert_eq!(errs[0].render(), "[0]: scan error: unterminated string");
        }
        other => panic!("expected scan errors, got {other:?}"),
    }
}

#[test]
fn unexpected_character_is_recorded_and_scanning_continues() {
    let err = scan("# +", 0).unwrap_err();
    match err {
        ErrorState::ScanErrs(errs) => {
            assert_eq!(errs.len(), 1);
            assert_eq!(errs[0].render(), "[0]: scan error: unexpected character: #");
        }
        other => panic!("expected scan errors, got {other:?}"),
    }
}

#[test]
fn two_scan_errors_accumulate() {
    let err = scan("# @", 3).unwrap_err();
    match err {
        ErrorState::ScanErrs(errs) => {
            assert_eq!(errs.len(), 2);
            assert_eq!(errs[0].render(), "[3]: scan error: unexpected character: #");
            assert_eq!(errs[1].render(), "[3]: scan error: unexpected character: @");
        }
        other => panic!("expected scan errors, got {other:?}"),
    }
}

#[test]
fn numeral_with_two_dots_is_a_scan_error() {
    let err = scan("1.2.3", 0).unwrap_err();
    match err {
        ErrorState::ScanErrs(errs) => {
            assert_eq!(errs.len(), 1);
            assert_eq!(
                errs[0].render(),
                "[0]: scan error: invalid number literal: 1.2.3"
            );
        }
        other => panic!("expected scan errors, got {other:?}"),
    }
}

#[test]
fn numeral_with_trailing_dot_scans_as_a_number() {
    let actual_tokens = scan("123.", 0).unwrap();
    assert_eq!(
        actual_tokens,
        vec![
            Token::new(TokenData::Number(123.0f32.to_bits()), 0),
            Token::new(TokenData::Eof, 0),
        ]
    );
}

#[test]
fn fractional_numeral_scans_to_the_nearest_float() {
    let actual_tokens = scan("0.1", 0).unwrap();
    assert_eq!(
        actual_tokens,
        vec![
            Token::new(TokenData::Number(0.1f32.to_bits()), 0),
            Token::new(TokenData::Eof, 0),
        ]
    );
}

#[test]
fn comment_runs_to_end_of_line_only() {
    let actual_tokens = scan("1 // rest ignored ###\n2", 0).unwrap();
    assert_eq!(
        actual_tokens,
        vec![
            Token::new(TokenData::Number(1.0f32.to_bits()), 0),
            Token::new(TokenData::Number(2.0f32.to_bits()), 1),
            Token::new(TokenData::Eof, 1),
        ]
    );
}

#[test]
fn is_word_accepts_letters_and_underscore_only() {
    assert!(is_word('a'));
    assert!(is_word('Z'));
    assert!(is_word('_'));
    assert!(!is_word('1'));
    assert!(!is_word(' '));
}

#[test]
fn consume_while_stops_at_first_mismatch() {
    let chars: Vec<char> = "12.5x".chars().collect();
    let mut pos: usize = 0;
    let taken = consume_while(&chars, &mut pos, CharCond::Numeral);
    assert_eq!(taken, vec!['1', '2', '.', '5']);
    assert_eq!(pos, 4);
}

#[test]
fn consume_until_leaves_the_ending_character() {
    let chars: Vec<char> = "abc\"rest".chars().collect();
    let mut pos: usize = 0;
    let taken = consume_until(&chars, &mut pos, '"');
    assert_eq!(taken, "abc".to_string());
    assert_eq!(pos, 3);
    assert_eq!(chars[pos], '"');
}

#[test]
fn diagnostics_carry_multi_digit_line_numbers() {
    let err = scan("#", 105).unwrap_err();
    match err {
        ErrorState::ScanErrs(errs) => {
            assert_eq!(errs[0].render(), "[105]: scan error: unexpected character: #");
        }
        other => panic!("expected scan errors, got {other:?}"),
    }
}
