//! The scanner: a single forward pass over the source characters with
//! one character of lookahead, producing the token sequence and
//! accumulating as many diagnostics as it can. Its behaviour is defined
//! by [`spec_scan`], and `scan` is proved to produce exactly that.

use vstd::prelude::*;

use crate::error::Error;
use crate::error::ErrorMsgView;
use crate::error::ErrorState;
use crate::error::ErrorStateView;
use crate::error::ErrorView;
use crate::number::decimal_bits;
use crate::number::numeral_check;
use crate::number::numeral_valid;
use crate::number::num_from_decimal;
use crate::strutil::chars_to_string;
use crate::strutil::is_digit_char;
use crate::strutil::is_numeral_char;
use crate::strutil::is_word_char;
use crate::strutil::str_chars;
use crate::token::Token;
use crate::token::TokenData;
use crate::token::TokenDataView;
use crate::token::TokenView;

verus! {

/// A character condition the scanner consumes runs of characters by:
/// anything but a given character, numeral characters, or word
/// characters.
#[derive(Copy, Clone)]
pub enum CharCond {
    NotChar(char),
    Numeral,
    Word,
}

impl CharCond {
    /// Whether a character meets the condition.
    pub open spec fn holds(self, c: char) -> bool {
        match self {
            CharCond::NotChar(e) => c != e,
            CharCond::Numeral => is_numeral_char(c),
            CharCond::Word => is_word_char(c),
        }
    }

    /// Decides [`CharCond::holds`].
    pub fn check(self, c: char) -> (r: bool)
        ensures
            r == self.holds(c),
    {
        match self {
            CharCond::NotChar(e) => c != e,
            CharCond::Numeral => ('0' <= c && c <= '9') || c == '.',
            CharCond::Word => ('A' <= c && c <= 'Z') || ('a' <= c && c <= 'z') || c == '_',
        }
    }
}

/// The length of the longest prefix of `s` whose characters all meet
/// the condition.
pub open spec fn prefix_while(s: Seq<char>, cond: CharCond) -> nat
    decreases s.len(),
{
    if s.len() == 0 || !cond.holds(s[0]) {
        0
    } else {
        1 + prefix_while(s.skip(1), cond)
    }
}

/// The prefix length never exceeds the sequence length.
pub proof fn lemma_prefix_while_le(s: Seq<char>, cond: CharCond)
    ensures
        prefix_while(s, cond) <= s.len(),
    decreases s.len(),
{
    if s.len() != 0 && cond.holds(s[0]) {
        lemma_prefix_while_le(s.skip(1), cond);
    }
}

/// The prefix length is the unique cut: everything before it meets the
/// condition, and the character at it (if any) does not.
pub proof fn lemma_prefix_while_unique(s: Seq<char>, cond: CharCond, k: int)
    requires
        0 <= k <= s.len(),
        forall|i: int| 0 <= i < k ==> cond.holds(#[trigger] s[i]),
        k == s.len() || !cond.holds(s[k]),
    ensures
        prefix_while(s, cond) == k,
    decreases s.len(),
{
    if k == 0 {
    } else {
        assert(cond.holds(s[0]));
        assert forall|i: int| 0 <= i < k - 1 implies cond.holds(#[trigger] s.skip(1)[i]) by {
            assert(s.skip(1)[i] == s[i + 1]);
        }
        if k - 1 < s.skip(1).len() {
            assert(s.skip(1)[k - 1] == s[k]);
        }
        lemma_prefix_while_unique(s.skip(1), cond, k - 1);
    }
}

/// Every character strictly before the prefix cut meets the condition.
pub proof fn lemma_prefix_while_holds(s: Seq<char>, cond: CharCond)
    ensures
        forall|i: int| 0 <= i < prefix_while(s, cond) ==> cond.holds(#[trigger] s[i]),
    decreases s.len(),
{
    if s.len() != 0 && cond.holds(s[0]) {
        lemma_prefix_while_le(s.skip(1), cond);
        lemma_prefix_while_holds(s.skip(1), cond);
        assert forall|i: int| 0 <= i < prefix_while(s, cond) implies cond.holds(
            #[trigger] s[i],
        ) by {
            if i > 0 {
                assert(s.skip(1)[i - 1] == s[i]);
            }
        }
    }
}

/// How many newline characters a sequence contains.
pub open spec fn newline_count(s: Seq<char>) -> nat
    decreases s.len(),
{
    if s.len() == 0 {
        0
    } else {
        (if s[0] == '\n' {
            1nat
        } else {
            0nat
        }) + newline_count(s.skip(1))
    }
}

/// Newlines in a sequence split across any cut.
pub proof fn lemma_newline_count_split(s: Seq<char>, k: int)
    requires
        0 <= k <= s.len(),
    ensures
        newline_count(s) == newline_count(s.take(k)) + newline_count(s.skip(k)),
    decreases k,
{
    if k == 0 {
        assert(s.take(0) =~= Seq::<char>::empty());
        assert(s.skip(0) =~= s);
    } else {
        assert(s.take(k)[0] == s[0]);
        assert(s.take(k).skip(1) =~= s.skip(1).take(k - 1));
        assert(s.skip(1).skip(k - 1) =~= s.skip(k));
        lemma_newline_count_split(s.skip(1), k - 1);
    }
}

/// A sequence without newline characters has a newline count of zero.
pub proof fn lemma_newline_count_zero(s: Seq<char>)
    requires
        forall|i: int| 0 <= i < s.len() ==> #[trigger] s[i] != '\n',
    ensures
        newline_count(s) == 0,
    decreases s.len(),
{
    if s.len() != 0 {
        assert forall|i: int| 0 <= i < s.skip(1).len() implies #[trigger] s.skip(1)[i] != '\n' by {
            assert(s.skip(1)[i] == s[i + 1]);
        }
        lemma_newline_count_zero(s.skip(1));
    }
}

/// The lexical unit a completed word resolves to: one of the fixed
/// keywords, or an identifier.
pub open spec fn keyword_of(w: Seq<char>) -> TokenDataView {
    if w == "and"@ {
        TokenDataView::And
    } else if w == "class"@ {
        TokenDataView::Class
    } else if w == "else"@ {
        TokenDataView::Else
    } else if w == "false"@ {
        TokenDataView::False
    } else if w == "fun"@ {
        TokenDataView::Fun
    } else if w == "for"@ {
        TokenDataView::For
    } else if w == "if"@ {
        TokenDataView::If
    } else if w == "nil"@ {
        TokenDataView::Nil
    } else if w == "or"@ {
        TokenDataView::Or
    } else if w == "print"@ {
        TokenDataView::Print
    } else if w == "return"@ {
        TokenDataView::Return
    } else if w == "super"@ {
        TokenDataView::Super
    } else if w == "this"@ {
        TokenDataView::This
    } else if w == "true"@ {
        TokenDataView::True
    } else if w == "var"@ {
        TokenDataView::Var
    } else if w == "while"@ {
        TokenDataView::While
    } else {
        TokenDataView::Identifier(w)
    }
}

/// The diagnostic text for a numeral with more than one dot.
pub open spec fn msg_invalid_number(word: Seq<char>) -> Seq<char> {
    "invalid number literal: "@ + word
}

/// The diagnostic text for a string literal never closed.
pub open spec fn msg_unterminated_string() -> Seq<char> {
    "unterminated string"@
}

/// The diagnostic text for a character outside the lexical grammar.
pub open spec fn msg_unexpected_char(c: char) -> Seq<char> {
    "unexpected character: "@ + seq![c]
}

/// What scanning a character sequence produces: the tokens and the
/// diagnostics, each in source order.
pub struct ScanOut {
    pub tokens: Seq<TokenView>,
    pub errors: Seq<ErrorView>,
}

/// One scan diagnostic at a line.
pub open spec fn scan_err(msg: Seq<char>, line: u32) -> ErrorView {
    ErrorView { err: ErrorMsgView::Scan(msg), line }
}

/// The token and diagnostic sequences that scanning `s` from line
/// `line` produces:
///
/// - the ten unambiguous single characters each yield their token;
/// - `!` `=` `>` `<` yield their two-character token when followed by
///   `=`, else their one-character token;
/// - `//` discards the rest of the line; a single `/` yields `Slash`;
/// - `"` opens a string literal running to the next `"`; reaching the
///   end of input instead is a diagnostic, and line breaks inside the
///   literal do not advance the line counter;
/// - a digit opens a numeral of digits and dots, converted as a decimal
///   when it has at most one dot and a diagnostic otherwise;
/// - a letter or underscore opens a word, resolved against the keyword
///   table, unmatched words becoming identifiers;
/// - space, tab and carriage return are discarded; a newline advances
///   the line counter;
/// - any other character is a diagnostic, and scanning continues with
///   the next character;
/// - the end of input always yields a final `Eof` token.
pub open spec fn spec_scan(s: Seq<char>, line: u32) -> ScanOut
    decreases s.len(),
    via spec_scan_decreases
{
    if s.len() == 0 {
        ScanOut { tokens: seq![TokenView { data: TokenDataView::Eof, line }], errors: seq![] }
    } else {
        let c = s[0];
        if c == '(' {
            let rest = spec_scan(s.skip(1), line);
            ScanOut {
                tokens: seq![TokenView { data: TokenDataView::LeftParen, line }] + rest.tokens,
                errors: rest.errors,
            }
        } else if c == ')' {
            let rest = spec_scan(s.skip(1), line);
            ScanOut {
                tokens: seq![TokenView { data: TokenDataView::RightParen, line }] + rest.tokens,
                errors: rest.errors,
            }
        } else if c == '{' {
            let rest = spec_scan(s.skip(1), line);
            ScanOut {
                tokens: seq![TokenView { data: TokenDataView::LeftBrace, line }] + rest.tokens,
                errors: rest.errors,
            }
        } else if c == '}' {
            let rest = spec_scan(s.skip(1), line);
            ScanOut {
                tokens: seq![TokenView { data: TokenDataView::RightBrace, line }] + rest.tokens,
                errors: rest.errors,
            }
        } else if c == ',' {
            let rest = spec_scan(s.skip(1), line);
            ScanOut {
                tokens: seq![TokenView { data: TokenDataView::Comma, line }] + rest.tokens,
                errors: rest.errors,
            }
        } else if c == '.' {
            let rest = spec_scan(s.skip(1), line);
            ScanOut {
                tokens: seq![TokenView { data: TokenDataView::Dot, line }] + rest.tokens,
                errors: rest.errors,
            }
        } else if c == '-' {
            let rest = spec_scan(s.skip(1), line);
            ScanOut {
                tokens: seq![TokenView { data: TokenDataView::Minus, line }] + rest.tokens,
                errors: rest.errors,
            }
        } else if c == '+' {
            let rest = spec_scan(s.skip(1), line);
            ScanOut {
                tokens: seq![TokenView { data: TokenDataView::Plus, line }] + rest.tokens,
                errors: rest.errors,
            }
        } else if c == ';' {
            let rest = spec_scan(s.skip(1), line);
            ScanOut {
                tokens: seq![TokenView { data: TokenDataView::Semicolon, line }] + rest.tokens,
                errors: rest.errors,
            }
        } else if c == '*' {
            let rest = spec_scan(s.skip(1), line);
            ScanOut {
                tokens: seq![TokenView { data: TokenDataView::Star, line }] + rest.tokens,
                errors: rest.errors,
            }
        } else if c == '!' {
            if s.len() >= 2 && s[1] == '=' {
                let rest = spec_scan(s.skip(2), line);
                ScanOut {
                    tokens: seq![TokenView { data: TokenDataView::BangEqual, line }] + rest.tokens,
                    errors: rest.errors,
                }
            } else {
                let rest = spec_scan(s.skip(1), line);
                ScanOut {
                    tokens: seq![TokenView { data: TokenDataView::Bang, line }] + rest.tokens,
                    errors: rest.errors,
                }
            }
        } else if c == '=' {
            if s.len() >= 2 && s[1] == '=' {
                let rest = spec_scan(s.skip(2), line);
                ScanOut {
                    tokens: seq![TokenView { data: TokenDataView::EqualEqual, line }] + rest.tokens,
                    errors: rest.errors,
                }
            } else {
                let rest = spec_scan(s.skip(1), line);
                ScanOut {
                    tokens: seq![TokenView { data: TokenDataView::Equal, line }] + rest.tokens,
                    errors: rest.errors,
                }
            }
        } else if c == '>' {
            if s.len() >= 2 && s[1] == '=' {
                let rest = spec_scan(s.skip(2), line);
                ScanOut {
                    tokens: seq![TokenView { data: TokenDataView::GreaterEqual, line }]
                        + rest.tokens,
                    errors: rest.errors,
                }
            } else {
                let rest = spec_scan(s.skip(1), line);
                ScanOut {
                    tokens: seq![TokenView { data: TokenDataView::Greater, line }] + rest.tokens,
                    errors: rest.errors,
                }
            }
        } else if c == '<' {
            if s.len() >= 2 && s[1] == '=' {
                let rest = spec_scan(s.skip(2), line);
                ScanOut {
                    tokens: seq![TokenView { data: TokenDataView::LessEqual, line }] + rest.tokens,
                    errors: rest.errors,
                }
            } else {
                let rest = spec_scan(s.skip(1), line);
                ScanOut {
                    tokens: seq![TokenView { data: TokenDataView::Less, line }] + rest.tokens,
                    errors: rest.errors,
                }
            }
        } else if c == '/' {
            if s.len() >= 2 && s[1] == '/' {
                let k = 2 + prefix_while(s.skip(2), CharCond::NotChar('\n'));
                spec_scan(s.skip(k as int), line)
            } else {
                let rest = spec_scan(s.skip(1), line);
                ScanOut {
                    tokens: seq![TokenView { data: TokenDataView::Slash, line }] + rest.tokens,
                    errors: rest.errors,
                }
            }
        } else if c == '"' {
            let content = prefix_while(s.skip(1), CharCond::NotChar('"'));
            if 1 + content < s.len() {
                let rest = spec_scan(s.skip(2 + content as int), line);
                ScanOut {
                    tokens: seq![
                        TokenView {
                            data: TokenDataView::StringToken(s.subrange(1, 1 + content as int)),
                            line,
                        },
                    ] + rest.tokens,
                    errors: rest.errors,
                }
            } else {
                let rest = spec_scan(s.skip(s.len() as int), line);
                ScanOut {
                    tokens: rest.tokens,
                    errors: seq![scan_err(msg_unterminated_string(), line)] + rest.errors,
                }
            }
        } else if c == ' ' || c == '\r' || c == '\t' {
            spec_scan(s.skip(1), line)
        } else if c == '\n' {
            spec_scan(s.skip(1), ((line + 1) as u32))
        } else if is_digit_char(c) {
            let k = 1 + prefix_while(s.skip(1), CharCond::Numeral);
            let word = s.subrange(0, k as int);
            let rest = spec_scan(s.skip(k as int), line);
            if numeral_valid(word) {
                ScanOut {
                    tokens: seq![
                        TokenView { data: TokenDataView::Number(decimal_bits(word)), line },
                    ] + rest.tokens,
                    errors: rest.errors,
                }
            } else {
                ScanOut {
                    tokens: rest.tokens,
                    errors: seq![scan_err(msg_invalid_number(word), line)] + rest.errors,
                }
            }
        } else if is_word_char(c) {
            let k = 1 + prefix_while(s.skip(1), CharCond::Word);
            let word = s.subrange(0, k as int);
            let rest = spec_scan(s.skip(k as int), line);
            ScanOut {
                tokens: seq![TokenView { data: keyword_of(word), line }] + rest.tokens,
                errors: rest.errors,
            }
        } else {
            let rest = spec_scan(s.skip(1), line);
            ScanOut {
                tokens: rest.tokens,
                errors: seq![scan_err(msg_unexpected_char(c), line)] + rest.errors,
            }
        }
    }
}

#[via_fn]
proof fn spec_scan_decreases(s: Seq<char>, line: u32) {
    if s.len() > 0 {
        lemma_prefix_while_le(s.skip(2), CharCond::NotChar('\n'));
        lemma_prefix_while_le(s.skip(1), CharCond::NotChar('"'));
        lemma_prefix_while_le(s.skip(1), CharCond::Numeral);
        lemma_prefix_while_le(s.skip(1), CharCond::Word);
    }
}

/// Whether a character may begin or continue a keyword or identifier.
pub fn is_word(c: char) -> (r: bool)
    ensures
        r == is_word_char(c),
{
    ('A' <= c && c <= 'Z') || ('a' <= c && c <= 'z') || c == '_'
}

/// Consumes the character at the cursor when it matches, picking
/// between the two-character and one-character reading of an operator.
pub fn double_char_ternary(
    feed: &Vec<char>,
    pos: &mut usize,
    conditional_match: char,
    if_true: TokenData,
    if_false: TokenData,
) -> (r: TokenData)
    requires
        *old(pos) <= feed@.len(),
    ensures
        if *old(pos) < feed@.len() && feed@[*old(pos) as int] == conditional_match {
            *final(pos) == *old(pos) + 1 && r == if_true
        } else {
            *final(pos) == *old(pos) && r == if_false
        },
{
    if *pos < feed.len() {
        let c = feed[*pos];
        if c == conditional_match {
            *pos = *pos + 1;
            return if_true;
        }
    }
    if_false
}

/// Consumes the longest run of characters meeting the condition,
/// starting at the cursor, and returns it.
pub fn consume_while(feed: &Vec<char>, pos: &mut usize, condition: CharCond) -> (r: Vec<char>)
    requires
        *old(pos) <= feed@.len(),
    ensures
        *final(pos) == *old(pos) + prefix_while(feed@.skip(*old(pos) as int), condition),
        r@ == feed@.subrange(*old(pos) as int, *final(pos) as int),
{
    let ghost start = *pos as int;
    let mut acc: Vec<char> = Vec::new();
    proof {
        assert(acc@ =~= feed@.subrange(start, start));
    }
    while *pos < feed.len() && condition.check(feed[*pos])
        invariant
            0 <= start <= *pos as int <= feed@.len(),
            acc@ == feed@.subrange(start, *pos as int),
            forall|j: int| start <= j < *pos as int ==> condition.holds(#[trigger] feed@[j]),
        decreases feed@.len() - *pos as int,
    {
        let c = feed[*pos];
        acc.push(c);
        *pos = *pos + 1;
        proof {
            assert(acc@ =~= feed@.subrange(start, *pos as int));
        }
    }
    proof {
        let s = feed@.skip(start);
        let k = *pos as int - start;
        assert forall|i: int| 0 <= i < k implies condition.holds(#[trigger] s[i]) by {
            assert(s[i] == feed@[start + i]);
        }
        if k < s.len() {
            assert(s[k] == feed@[*pos as int]);
        }
        lemma_prefix_while_unique(s, condition, k);
    }
    acc
}

/// Consumes characters up to, and not including, the ending character,
/// and returns them as text; reaching the end of input consumes
/// everything left.
pub fn consume_until(feed: &Vec<char>, pos: &mut usize, ending_char: char) -> (r: String)
    requires
        *old(pos) <= feed@.len(),
    ensures
        *final(pos) == *old(pos) + prefix_while(
            feed@.skip(*old(pos) as int),
            CharCond::NotChar(ending_char),
        ),
        r@ == feed@.subrange(*old(pos) as int, *final(pos) as int),
{
    let chars = consume_while(feed, pos, CharCond::NotChar(ending_char));
    chars_to_string(&chars)
}

/// Resolves a completed word against the fixed keyword table; an
/// unmatched word becomes an identifier.
pub fn match_keyword(s: String) -> (r: TokenData)
    ensures
        r@ == keyword_of(s@),
{
    if s == String::from_str("and") {
        TokenData::And
    } else if s == String::from_str("class") {
        TokenData::Class
    } else if s == String::from_str("else") {
        TokenData::Else
    } else if s == String::from_str("false") {
        TokenData::False
    } else if s == String::from_str("fun") {
        TokenData::Fun
    } else if s == String::from_str("for") {
        TokenData::For
    } else if s == String::from_str("if") {
        TokenData::If
    } else if s == String::from_str("nil") {
        TokenData::Nil
    } else if s == String::from_str("or") {
        TokenData::Or
    } else if s == String::from_str("print") {
        TokenData::Print
    } else if s == String::from_str("return") {
        TokenData::Return
    } else if s == String::from_str("super") {
        TokenData::Super
    } else if s == String::from_str("this") {
        TokenData::This
    } else if s == String::from_str("true") {
        TokenData::True
    } else if s == String::from_str("var") {
        TokenData::Var
    } else if s == String::from_str("while") {
        TokenData::While
    } else {
        TokenData::Identifier(s)
    }
}


/// The model of a token vector.
pub open spec fn tokens_view(v: Seq<Token>) -> Seq<TokenView> {
    v.map_values(|t: Token| t@)
}

/// Pushing a token commutes with taking the model.
pub proof fn lemma_tokens_view_push(v: Seq<Token>, t: Token)
    ensures
        tokens_view(v.push(t)) == tokens_view(v).push(t@),
{
    assert(tokens_view(v.push(t)) =~= tokens_view(v).push(t@));
}

/// Prepending one element before a tail equals pushing it onto the
/// part before them.
proof fn lemma_push_front<A>(pre: Seq<A>, x: A, rest: Seq<A>)
    ensures
        pre + (seq![x] + rest) == pre.push(x) + rest,
{
    assert(pre + (seq![x] + rest) =~= pre.push(x) + rest);
}

/// The token an unambiguous single character yields, if any.
pub open spec fn single_of(c: char) -> Option<TokenDataView> {
    if c == '(' {
        Some(TokenDataView::LeftParen)
    } else if c == ')' {
        Some(TokenDataView::RightParen)
    } else if c == '{' {
        Some(TokenDataView::LeftBrace)
    } else if c == '}' {
        Some(TokenDataView::RightBrace)
    } else if c == ',' {
        Some(TokenDataView::Comma)
    } else if c == '.' {
        Some(TokenDataView::Dot)
    } else if c == '-' {
        Some(TokenDataView::Minus)
    } else if c == '+' {
        Some(TokenDataView::Plus)
    } else if c == ';' {
        Some(TokenDataView::Semicolon)
    } else if c == '*' {
        Some(TokenDataView::Star)
    } else {
        None
    }
}

/// Maps an unambiguous single character to its token.
fn single_token(c: char) -> (r: Option<TokenData>)
    ensures
        match r {
            Some(td) => single_of(c) == Some(td@),
            None => single_of(c) is None,
        },
{
    match c {
        '(' => Some(TokenData::LeftParen),
        ')' => Some(TokenData::RightParen),
        '{' => Some(TokenData::LeftBrace),
        '}' => Some(TokenData::RightBrace),
        ',' => Some(TokenData::Comma),
        '.' => Some(TokenData::Dot),
        '-' => Some(TokenData::Minus),
        '+' => Some(TokenData::Plus),
        ';' => Some(TokenData::Semicolon),
        '*' => Some(TokenData::Star),
        _ => None,
    }
}

/// Converts source text into its token sequence, starting the line
/// counter at `starting_line`.
///
/// Produces exactly [`spec_scan`] of the text: `Ok` with the tokens
/// when no diagnostic was recorded, otherwise `Err` with every
/// diagnostic, in source order. The line counter must not be able to
/// overflow across the text's newlines.
#[verifier::rlimit(80)]
#[verifier::spinoff_prover]
pub fn scan(text: &str, starting_line: u32) -> (r: Result<Vec<Token>, ErrorState>)
    requires
        starting_line + newline_count(text@) <= u32::MAX,
    ensures
        ({
            let out = spec_scan(text@, starting_line);
            match r {
                Ok(tokens) => out.errors.len() == 0 && tokens_view(tokens@) == out.tokens,
                Err(st) => out.errors.len() > 0 && st@ == ErrorStateView::ScanErrs(out.errors),
            }
        }),
{
    let chars = str_chars(text);
    let n = chars.len();
    let mut tokens: Vec<Token> = Vec::new();
    let mut err_state = ErrorState::new_scanner_state();
    let ghost mut errs_v: Seq<ErrorView> = Seq::empty();
    let mut lineno = starting_line;
    let mut pos: usize = 0;
    proof {
        assert(text@.skip(0) =~= text@);
        assert(tokens_view(tokens@) =~= Seq::<TokenView>::empty());
        assert(Seq::<TokenView>::empty() + spec_scan(text@, starting_line).tokens =~= spec_scan(
            text@,
            starting_line,
        ).tokens);
        assert(Seq::<ErrorView>::empty() + spec_scan(text@, starting_line).errors =~= spec_scan(
            text@,
            starting_line,
        ).errors);
    }
    while pos < n
        invariant
            chars@ == text@,
            n == chars@.len(),
            0 <= pos <= n,
            lineno as int + newline_count(text@.skip(pos as int)) <= u32::MAX,
            err_state@ == ErrorStateView::ScanErrs(errs_v),
            spec_scan(text@, starting_line).tokens == tokens_view(tokens@) + spec_scan(
                text@.skip(pos as int),
                lineno,
            ).tokens,
            spec_scan(text@, starting_line).errors == errs_v + spec_scan(
                text@.skip(pos as int),
                lineno,
            ).errors,
        decreases n - pos,
    {
        let ghost pos0 = pos as int;
        let ghost rem = text@.skip(pos0);
        let ghost tv_pre = tokens_view(tokens@);
        let c = chars[pos];
        proof {
            assert(rem[0] == c);
            assert(rem.len() == n - pos0);
        }
        let single = single_token(c);
        if let Some(td) = single {
            let tok = Token::new(td, lineno);
            let ghost tv = tok@;
            tokens.push(tok);
            pos = pos + 1;
            proof {
                assert(rem.skip(1) =~= text@.skip(pos as int));
                assert(spec_scan(rem, lineno).tokens == seq![tv] + spec_scan(
                    text@.skip(pos as int),
                    lineno,
                ).tokens);
                assert(spec_scan(rem, lineno).errors == spec_scan(
                    text@.skip(pos as int),
                    lineno,
                ).errors);
                assert(tokens@.drop_last() =~= tokens@.subrange(0, tokens@.len() - 1));
                assert(tokens@ =~= tokens@.drop_last().push(tok));
                lemma_tokens_view_push(tokens@.drop_last(), tok);
                assert(tokens_view(tokens@) == tv_pre.push(tv));
                lemma_push_front(tv_pre, tv, spec_scan(text@.skip(pos as int), lineno).tokens);
            }
        } else if c == '!' || c == '=' || c == '>' || c == '<' {
            pos = pos + 1;
            let t = if c == '!' {
                double_char_ternary(&chars, &mut pos, '=', TokenData::BangEqual, TokenData::Bang)
            } else if c == '=' {
                double_char_ternary(&chars, &mut pos, '=', TokenData::EqualEqual, TokenData::Equal)
            } else if c == '>' {
                double_char_ternary(
                    &chars,
                    &mut pos,
                    '=',
                    TokenData::GreaterEqual,
                    TokenData::Greater,
                )
            } else {
                double_char_ternary(&chars, &mut pos, '=', TokenData::LessEqual, TokenData::Less)
            };
            let tok = Token::new(t, lineno);
            let ghost tv = tok@;
            tokens.push(tok);
            proof {
                assert(rem.skip(pos as int - pos0) =~= text@.skip(pos as int));
                if 1 < rem.len() {
                    assert(rem[1] == text@[pos0 + 1]);
                }
                assert(spec_scan(rem, lineno).tokens == seq![tv] + spec_scan(
                    text@.skip(pos as int),
                    lineno,
                ).tokens);
                assert(spec_scan(rem, lineno).errors == spec_scan(
                    text@.skip(pos as int),
                    lineno,
                ).errors);
                assert(tokens@ =~= tokens@.drop_last().push(tok));
                lemma_tokens_view_push(tokens@.drop_last(), tok);
                assert(tokens_view(tokens@) == tv_pre.push(tv));
                lemma_push_front(tv_pre, tv, spec_scan(text@.skip(pos as int), lineno).tokens);
                lemma_newline_count_split(rem, pos as int - pos0);
                lemma_newline_count_zero(rem.take(pos as int - pos0));
            }
        } else if c == '/' {
            pos = pos + 1;
            let two = pos < n && chars[pos] == '/';
            if two {
                pos = pos + 1;
                let _comment = consume_until(&chars, &mut pos, '\n');
                proof {
                    let k = pos as int - pos0;
                    assert(rem[1] == text@[pos0 + 1]);
                    assert(rem.skip(2) =~= text@.skip(pos0 + 2));
                    lemma_prefix_while_le(text@.skip(pos0 + 2), CharCond::NotChar('\n'));
                    assert(k == 2 + prefix_while(rem.skip(2), CharCond::NotChar('\n')));
                    assert(2 <= k <= rem.len());
                    assert(rem.skip(k) =~= text@.skip(pos as int));
                    assert(spec_scan(rem, lineno).tokens == spec_scan(
                        text@.skip(pos as int),
                        lineno,
                    ).tokens);
                    assert(spec_scan(rem, lineno).errors == spec_scan(
                        text@.skip(pos as int),
                        lineno,
                    ).errors);
                    lemma_prefix_while_holds(text@.skip(pos0 + 2), CharCond::NotChar('\n'));
                    assert forall|i: int| 0 <= i < k implies #[trigger] rem.take(k)[i] != '\n' by {
                        if i >= 2 {
                            assert(rem.take(k)[i] == text@.skip(pos0 + 2)[i - 2]);
                        }
                    }
                    lemma_newline_count_zero(rem.take(k));
                    lemma_newline_count_split(rem, k);
                }
            } else {
                let tok = Token::new(TokenData::Slash, lineno);
                let ghost tv = tok@;
                tokens.push(tok);
                proof {
                    assert(rem.skip(1) =~= text@.skip(pos as int));
                    if 1 < rem.len() {
                        assert(rem[1] == text@[pos0 + 1]);
                    }
                    assert(spec_scan(rem, lineno).tokens == seq![tv] + spec_scan(
                        text@.skip(pos as int),
                        lineno,
                    ).tokens);
                    assert(spec_scan(rem, lineno).errors == spec_scan(
                        text@.skip(pos as int),
                        lineno,
                    ).errors);
                    assert(tokens@ =~= tokens@.drop_last().push(tok));
                    lemma_tokens_view_push(tokens@.drop_last(), tok);
                    assert(tokens_view(tokens@) == tv_pre.push(tv));
                    lemma_push_front(tv_pre, tv, spec_scan(text@.skip(pos as int), lineno).tokens);
                }
            }
        } else if c == '"' {
            pos = pos + 1;
            let literal = consume_until(&chars, &mut pos, '"');
            proof {
                assert(rem.skip(1) =~= text@.skip(pos0 + 1));
            }
            if pos < n {
                let tok = Token::new(TokenData::StringToken(literal), lineno);
                let ghost tv = tok@;
                tokens.push(tok);
                pos = pos + 1;
                proof {
                    let content = prefix_while(rem.skip(1), CharCond::NotChar('"'));
                    lemma_prefix_while_le(rem.skip(1), CharCond::NotChar('"'));
                    assert(pos as int == pos0 + 2 + content);
                    assert(1 + content < rem.len());
                    assert(rem.subrange(1, 1 + content as int) =~= text@.subrange(
                        pos0 + 1,
                        pos0 + 1 + content as int,
                    ));
                    assert(tv.data == TokenDataView::StringToken(rem.subrange(
                        1,
                        1 + content as int,
                    )));
                    assert(rem.skip(2 + content as int) =~= text@.skip(pos as int));
                    assert(spec_scan(rem, lineno).tokens == seq![tv] + spec_scan(
                        text@.skip(pos as int),
                        lineno,
                    ).tokens);
                    assert(spec_scan(rem, lineno).errors == spec_scan(
                        text@.skip(pos as int),
                        lineno,
                    ).errors);
                    assert(tokens@ =~= tokens@.drop_last().push(tok));
                    lemma_tokens_view_push(tokens@.drop_last(), tok);
                    assert(tokens_view(tokens@) == tv_pre.push(tv));
                    lemma_push_front(tv_pre, tv, spec_scan(text@.skip(pos as int), lineno).tokens);
                    lemma_newline_count_split(rem, pos as int - pos0);
                }
            } else {
                let e = Error::scan_error(String::from_str("unterminated string"), lineno);
                let ghost ev = e@;
                proof {
                    errs_v = errs_v.push(ev);
                }
                err_state.add(e);
                proof {
                    let content = prefix_while(rem.skip(1), CharCond::NotChar('"'));
                    lemma_prefix_while_le(rem.skip(1), CharCond::NotChar('"'));
                    assert(pos as int == pos0 + 1 + content);
                    assert(pos as int == n);
                    assert(!(1 + content < rem.len()));
                    assert(ev == scan_err(msg_unterminated_string(), lineno));
                    assert(rem.skip(rem.len() as int) =~= text@.skip(pos as int));
                    assert(spec_scan(rem, lineno).tokens == spec_scan(
                        text@.skip(pos as int),
                        lineno,
                    ).tokens);
                    assert(spec_scan(rem, lineno).errors == seq![ev] + spec_scan(
                        text@.skip(pos as int),
                        lineno,
                    ).errors);
                    lemma_push_front(
                        errs_v.drop_last(),
                        ev,
                        spec_scan(text@.skip(pos as int), lineno).errors,
                    );
                    assert(errs_v.drop_last() =~= errs_v.subrange(0, errs_v.len() - 1));
                    lemma_newline_count_split(rem, pos as int - pos0);
                }
            }
        } else if c == ' ' || c == '\r' || c == '\t' {
            pos = pos + 1;
            proof {
                assert(rem.skip(1) =~= text@.skip(pos as int));
            }
        } else if c == '\n' {
            proof {
                assert(newline_count(rem) >= 1);
            }
            lineno = lineno + 1;
            pos = pos + 1;
            proof {
                assert(rem.skip(1) =~= text@.skip(pos as int));
            }
        } else if '0' <= c && c <= '9' {
            pos = pos + 1;
            let mut word_chars: Vec<char> = Vec::new();
            word_chars.push(c);
            let mut part_two = consume_while(&chars, &mut pos, CharCond::Numeral);
            word_chars.append(&mut part_two);
            proof {
                let k = pos as int - pos0;
                assert(rem.skip(1) =~= text@.skip(pos0 + 1));
                assert(k == 1 + prefix_while(rem.skip(1), CharCond::Numeral));
                lemma_prefix_while_le(rem.skip(1), CharCond::Numeral);
                assert(word_chars@ =~= rem.subrange(0, k));
                assert(rem.skip(k) =~= text@.skip(pos as int));
                lemma_prefix_while_holds(rem.skip(1), CharCond::Numeral);
                assert forall|i: int| 0 <= i < k implies #[trigger] rem.take(k)[i] != '\n' by {
                    if i >= 1 {
                        assert(rem.take(k)[i] == rem.skip(1)[i - 1]);
                    }
                }
                lemma_newline_count_zero(rem.take(k));
                lemma_newline_count_split(rem, k);
            }
            if numeral_check(&word_chars) {
                let bits = num_from_decimal(&word_chars);
                let tok = Token::new(TokenData::Number(bits), lineno);
                let ghost tv = tok@;
                tokens.push(tok);
                proof {
                    assert(spec_scan(rem, lineno).tokens == seq![tv] + spec_scan(
                        text@.skip(pos as int),
                        lineno,
                    ).tokens);
                    assert(spec_scan(rem, lineno).errors == spec_scan(
                        text@.skip(pos as int),
                        lineno,
                    ).errors);
                    assert(tokens@ =~= tokens@.drop_last().push(tok));
                    lemma_tokens_view_push(tokens@.drop_last(), tok);
                    assert(tokens_view(tokens@) == tv_pre.push(tv));
                    lemma_push_front(tv_pre, tv, spec_scan(text@.skip(pos as int), lineno).tokens);
                }
            } else {
                let mut msg = String::from_str("invalid number literal: ");
                let word_str = chars_to_string(&word_chars);
                msg.append(word_str.as_str());
                let e = Error::scan_error(msg, lineno);
                let ghost ev = e@;
                proof {
                    errs_v = errs_v.push(ev);
                }
                err_state.add(e);
                proof {
                    let k = pos as int - pos0;
                    assert(ev == scan_err(msg_invalid_number(rem.subrange(0, k)), lineno));
                    assert(spec_scan(rem, lineno).tokens == spec_scan(
                        text@.skip(pos as int),
                        lineno,
                    ).tokens);
                    assert(spec_scan(rem, lineno).errors == seq![ev] + spec_scan(
                        text@.skip(pos as int),
                        lineno,
                    ).errors);
                    assert(errs_v.drop_last() =~= errs_v.subrange(0, errs_v.len() - 1));
                    lemma_push_front(
                        errs_v.drop_last(),
                        ev,
                        spec_scan(text@.skip(pos as int), lineno).errors,
                    );
                }
            }
        } else if is_word(c) {
            pos = pos + 1;
            let mut word_chars: Vec<char> = Vec::new();
            word_chars.push(c);
            let mut part_two = consume_while(&chars, &mut pos, CharCond::Word);
            word_chars.append(&mut part_two);
            let word_str = chars_to_string(&word_chars);
            let keyword = match_keyword(word_str);
            let tok = Token::new(keyword, lineno);
            let ghost tv = tok@;
            tokens.push(tok);
            proof {
                let k = pos as int - pos0;
                assert(rem.skip(1) =~= text@.skip(pos0 + 1));
                assert(k == 1 + prefix_while(rem.skip(1), CharCond::Word));
                lemma_prefix_while_le(rem.skip(1), CharCond::Word);
                assert(word_chars@ =~= rem.subrange(0, k));
                assert(rem.skip(k) =~= text@.skip(pos as int));
                assert(tv.data == keyword_of(rem.subrange(0, k)));
                assert(spec_scan(rem, lineno).tokens == seq![tv] + spec_scan(
                    text@.skip(pos as int),
                    lineno,
                ).tokens);
                assert(spec_scan(rem, lineno).errors == spec_scan(
                    text@.skip(pos as int),
                    lineno,
                ).errors);
                assert(tokens@ =~= tokens@.drop_last().push(tok));
                lemma_tokens_view_push(tokens@.drop_last(), tok);
                assert(tokens_view(tokens@) == tv_pre.push(tv));
                lemma_push_front(tv_pre, tv, spec_scan(text@.skip(pos as int), lineno).tokens);
                lemma_prefix_while_holds(rem.skip(1), CharCond::Word);
                assert forall|i: int| 0 <= i < k implies #[trigger] rem.take(k)[i] != '\n' by {
                    if i >= 1 {
                        assert(rem.take(k)[i] == rem.skip(1)[i - 1]);
                    }
                }
                lemma_newline_count_zero(rem.take(k));
                lemma_newline_count_split(rem, k);
            }
        } else {
            let mut cv: Vec<char> = Vec::new();
            cv.push(c);
            let c_str = chars_to_string(&cv);
            let mut msg = String::from_str("unexpected character: ");
            msg.append(c_str.as_str());
            let e = Error::scan_error(msg, lineno);
            let ghost ev = e@;
            proof {
                errs_v = errs_v.push(ev);
            }
            err_state.add(e);
            pos = pos + 1;
            proof {
                assert(cv@ =~= seq![c]);
                assert(ev == scan_err(msg_unexpected_char(c), lineno));
                assert(rem.skip(1) =~= text@.skip(pos as int));
                assert(spec_scan(rem, lineno).tokens == spec_scan(
                    text@.skip(pos as int),
                    lineno,
                ).tokens);
                assert(spec_scan(rem, lineno).errors == seq![ev] + spec_scan(
                    text@.skip(pos as int),
                    lineno,
                ).errors);
                assert(errs_v.drop_last() =~= errs_v.subrange(0, errs_v.len() - 1));
                lemma_push_front(
                    errs_v.drop_last(),
                    ev,
                    spec_scan(text@.skip(pos as int), lineno).errors,
                );
            }
        }
    }
    let tok = Token::new(TokenData::Eof, lineno);
    let ghost tv = tok@;
    let ghost tv_pre = tokens_view(tokens@);
    tokens.push(tok);
    proof {
        assert(text@.skip(pos as int) =~= Seq::<char>::empty());
        assert(spec_scan(Seq::<char>::empty(), lineno).tokens == seq![tv]);
        assert(spec_scan(Seq::<char>::empty(), lineno).errors =~= Seq::<ErrorView>::empty());
        assert(tokens@ =~= tokens@.drop_last().push(tok));
        lemma_tokens_view_push(tokens@.drop_last(), tok);
        assert(tokens_view(tokens@) == tv_pre.push(tv));
        assert(tv_pre + seq![tv] =~= tv_pre.push(tv));
        assert(errs_v + Seq::<ErrorView>::empty() =~= errs_v);
        assert(spec_scan(text@, starting_line).tokens == tokens_view(tokens@));
        assert(spec_scan(text@, starting_line).errors == errs_v);
    }
    if err_state.is_ok() {
        Ok(tokens)
    } else {
        Err(err_state)
    }
}


/// A token sequence stays parser-ready when a non-`Eof` token is put in
/// front of it.
proof fn lemma_tokens_wf_cons(tv: TokenView, rest: Seq<TokenView>)
    requires
        crate::token::tokens_wf(rest),
        tv.data != TokenDataView::Eof,
    ensures
        crate::token::tokens_wf(seq![tv] + rest),
{
    let c = seq![tv] + rest;
    assert(c.last() == rest.last());
    assert forall|j: int| 0 <= j < c.len() - 1 implies (#[trigger] c[j].data)
        != TokenDataView::Eof by {
        if j > 0 {
            assert(c[j] == rest[j - 1]);
        }
    }
}

/// What the scanner produces is what the parser runs on: the token
/// sequence of any text ends in its only `Eof` token.
pub proof fn lemma_spec_scan_tokens_wf(s: Seq<char>, line: u32)
    ensures
        crate::token::tokens_wf(spec_scan(s, line).tokens),
    decreases s.len(),
{
    if s.len() == 0 {
        let out = spec_scan(s, line);
        assert(out.tokens.len() == 1);
        assert(out.tokens.last().data == TokenDataView::Eof);
    } else {
        let c = s[0];
        if single_of(c) is Some {
            lemma_spec_scan_tokens_wf(s.skip(1), line);
            lemma_tokens_wf_cons(
                TokenView { data: single_of(c)->0, line },
                spec_scan(s.skip(1), line).tokens,
            );
        } else if c == '!' || c == '=' || c == '>' || c == '<' {
            if s.len() >= 2 && s[1] == '=' {
                lemma_spec_scan_tokens_wf(s.skip(2), line);
                lemma_tokens_wf_cons(
                    TokenView { data: spec_scan(s, line).tokens[0].data, line },
                    spec_scan(s.skip(2), line).tokens,
                );
            } else {
                lemma_spec_scan_tokens_wf(s.skip(1), line);
                lemma_tokens_wf_cons(
                    TokenView { data: spec_scan(s, line).tokens[0].data, line },
                    spec_scan(s.skip(1), line).tokens,
                );
            }
        } else if c == '/' {
            if s.len() >= 2 && s[1] == '/' {
                let k = 2 + prefix_while(s.skip(2), CharCond::NotChar('\n'));
                lemma_prefix_while_le(s.skip(2), CharCond::NotChar('\n'));
                lemma_spec_scan_tokens_wf(s.skip(k as int), line);
            } else {
                lemma_spec_scan_tokens_wf(s.skip(1), line);
                lemma_tokens_wf_cons(
                    TokenView { data: TokenDataView::Slash, line },
                    spec_scan(s.skip(1), line).tokens,
                );
            }
        } else if c == '"' {
            let content = prefix_while(s.skip(1), CharCond::NotChar('"'));
            lemma_prefix_while_le(s.skip(1), CharCond::NotChar('"'));
            if 1 + content < s.len() {
                lemma_spec_scan_tokens_wf(s.skip(2 + content as int), line);
                lemma_tokens_wf_cons(
                    TokenView {
                        data: TokenDataView::StringToken(s.subrange(1, 1 + content as int)),
                        line,
                    },
                    spec_scan(s.skip(2 + content as int), line).tokens,
                );
            } else {
                lemma_spec_scan_tokens_wf(s.skip(s.len() as int), line);
            }
        } else if c == ' ' || c == '\r' || c == '\t' {
            lemma_spec_scan_tokens_wf(s.skip(1), line);
        } else if c == '\n' {
            lemma_spec_scan_tokens_wf(s.skip(1), ((line + 1) as u32));
        } else if is_digit_char(c) {
            let k = 1 + prefix_while(s.skip(1), CharCond::Numeral);
            lemma_prefix_while_le(s.skip(1), CharCond::Numeral);
            let word = s.subrange(0, k as int);
            lemma_spec_scan_tokens_wf(s.skip(k as int), line);
            if numeral_valid(word) {
                lemma_tokens_wf_cons(
                    TokenView { data: TokenDataView::Number(decimal_bits(word)), line },
                    spec_scan(s.skip(k as int), line).tokens,
                );
            }
        } else if is_word_char(c) {
            let k = 1 + prefix_while(s.skip(1), CharCond::Word);
            lemma_prefix_while_le(s.skip(1), CharCond::Word);
            let word = s.subrange(0, k as int);
            assert(keyword_of(word) != TokenDataView::Eof);
            lemma_spec_scan_tokens_wf(s.skip(k as int), line);
            lemma_tokens_wf_cons(
                TokenView { data: keyword_of(word), line },
                spec_scan(s.skip(k as int), line).tokens,
            );
        } else {
            lemma_spec_scan_tokens_wf(s.skip(1), line);
        }
    }
}

} // verus!
