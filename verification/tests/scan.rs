use tokenizer::{Kind, Lexer, Token};

fn scan(source: &str) -> Vec<Token> {
    Lexer::new(source).tokens()
}

fn tok(kind: Kind, start: usize, end: usize) -> Token {
    Token { kind, start, end }
}

fn kinds(source: &str) -> Vec<Kind> {
    scan(source).iter().map(|token| token.kind).collect()
}

#[test]
fn let_statement() {
    assert_eq!(
        scan("let x = 1 + 2;"),
        vec![
            tok(Kind::Let, 0, 3),
            tok(Kind::Ident, 4, 5),
            tok(Kind::Equal, 6, 7),
            tok(Kind::Numeric, 8, 9),
            tok(Kind::Plus, 10, 11),
            tok(Kind::Numeric, 12, 13),
            tok(Kind::SemiColon, 13, 14),
            tok(Kind::EoF, 14, 14),
        ]
    );
}

#[test]
fn function_definition_drops_the_comma() {
    let source = "func add(a, b) { return a+b; }";
    assert_eq!(
        scan(source),
        vec![
            tok(Kind::Func, 0, 4),
            tok(Kind::Ident, 5, 8),
            tok(Kind::StartParen, 8, 9),
            tok(Kind::Ident, 9, 10),
            tok(Kind::Ident, 12, 13),
            tok(Kind::EndParen, 13, 14),
            tok(Kind::StartBrak, 15, 16),
            tok(Kind::Return, 17, 23),
            tok(Kind::Ident, 24, 25),
            tok(Kind::Plus, 25, 26),
            tok(Kind::Ident, 26, 27),
            tok(Kind::SemiColon, 27, 28),
            tok(Kind::EndBrak, 29, 30),
            tok(Kind::EoF, 30, 30),
        ]
    );
    let lexer = Lexer::new(source);
    let tokens = scan(source);
    assert_eq!(lexer.get_value(&tokens[1]), "add");
    assert_eq!(lexer.get_value(&tokens[3]), "a");
    assert_eq!(lexer.get_value(&tokens[4]), "b");
}

#[test]
fn empty_input_is_one_end_token() {
    assert_eq!(scan(""), vec![tok(Kind::EoF, 0, 0)]);
}

#[test]
fn blank_input_is_one_end_token() {
    assert_eq!(scan(" "), vec![tok(Kind::EoF, 1, 1)]);
    assert_eq!(scan("   "), vec![tok(Kind::EoF, 3, 3)]);
    assert_eq!(scan(" \t\n\x0c\r"), vec![tok(Kind::EoF, 5, 5)]);
    assert_eq!(scan("\n\n\n\n"), vec![tok(Kind::EoF, 4, 4)]);
}

#[test]
fn vertical_tab_is_no_whitespace() {
    // U+000B is not ASCII whitespace: it is dropped like any other stray character.
    assert_eq!(scan("\x0b"), vec![tok(Kind::EoF, 1, 1)]);
    assert_eq!(scan("a\x0bb"), vec![tok(Kind::Ident, 0, 1), tok(Kind::Ident, 2, 3), tok(Kind::EoF, 3, 3)]);
}

#[test]
fn compound_plus_equal() {
    assert_eq!(scan("+="), vec![tok(Kind::PlusEqual, 0, 2), tok(Kind::EoF, 2, 2)]);
}

#[test]
fn compound_minus_equal() {
    assert_eq!(scan("-="), vec![tok(Kind::MinusEqual, 0, 2), tok(Kind::EoF, 2, 2)]);
}

#[test]
fn compound_multi_equal() {
    assert_eq!(scan("*="), vec![tok(Kind::MultiEqual, 0, 2), tok(Kind::EoF, 2, 2)]);
}

#[test]
fn compound_divide_equal() {
    assert_eq!(scan("/="), vec![tok(Kind::DivideEqual, 0, 2), tok(Kind::EoF, 2, 2)]);
}

#[test]
fn compound_equal_equal() {
    assert_eq!(scan("=="), vec![tok(Kind::EqualEqual, 0, 2), tok(Kind::EoF, 2, 2)]);
}

#[test]
fn plain_operators() {
    assert_eq!(scan("+"), vec![tok(Kind::Plus, 0, 1), tok(Kind::EoF, 1, 1)]);
    assert_eq!(scan("-"), vec![tok(Kind::Minus, 0, 1), tok(Kind::EoF, 1, 1)]);
    assert_eq!(scan("*"), vec![tok(Kind::Multi, 0, 1), tok(Kind::EoF, 1, 1)]);
    assert_eq!(scan("/"), vec![tok(Kind::Divide, 0, 1), tok(Kind::EoF, 1, 1)]);
    assert_eq!(scan("="), vec![tok(Kind::Equal, 0, 1), tok(Kind::EoF, 1, 1)]);
}

#[test]
fn operator_lookahead_is_one_character() {
    assert_eq!(
        scan("==="),
        vec![tok(Kind::EqualEqual, 0, 2), tok(Kind::Equal, 2, 3), tok(Kind::EoF, 3, 3)]
    );
    assert_eq!(
        scan("+ ="),
        vec![tok(Kind::Plus, 0, 1), tok(Kind::Equal, 2, 3), tok(Kind::EoF, 3, 3)]
    );
    assert_eq!(
        scan("+=="),
        vec![tok(Kind::PlusEqual, 0, 2), tok(Kind::Equal, 2, 3), tok(Kind::EoF, 3, 3)]
    );
    assert_eq!(
        scan("+-"),
        vec![tok(Kind::Plus, 0, 1), tok(Kind::Minus, 1, 2), tok(Kind::EoF, 2, 2)]
    );
    assert_eq!(
        scan("/ *"),
        vec![tok(Kind::Divide, 0, 1), tok(Kind::Multi, 2, 3), tok(Kind::EoF, 3, 3)]
    );
}

#[test]
fn operators_between_words() {
    assert_eq!(
        kinds("a+=b-=c*=d/=e==f"),
        vec![
            Kind::Ident,
            Kind::PlusEqual,
            Kind::Ident,
            Kind::MinusEqual,
            Kind::Ident,
            Kind::MultiEqual,
            Kind::Ident,
            Kind::DivideEqual,
            Kind::Ident,
            Kind::EqualEqual,
            Kind::Ident,
            Kind::EoF,
        ]
    );
}

#[test]
fn punctuation() {
    assert_eq!(
        scan(";:(){}"),
        vec![
            tok(Kind::SemiColon, 0, 1),
            tok(Kind::Colon, 1, 2),
            tok(Kind::StartParen, 2, 3),
            tok(Kind::EndParen, 3, 4),
            tok(Kind::StartBrak, 4, 5),
            tok(Kind::EndBrak, 5, 6),
            tok(Kind::EoF, 6, 6),
        ]
    );
}

#[test]
fn block_comment_is_one_token() {
    assert_eq!(scan("/* note */"), vec![tok(Kind::Comment, 0, 10), tok(Kind::EoF, 10, 10)]);
}

#[test]
fn empty_block_comment() {
    assert_eq!(scan("/**/"), vec![tok(Kind::Comment, 0, 4), tok(Kind::EoF, 4, 4)]);
}

#[test]
fn comment_between_tokens() {
    assert_eq!(
        scan("a /* b c */ d"),
        vec![
            tok(Kind::Ident, 0, 1),
            tok(Kind::Comment, 2, 11),
            tok(Kind::Ident, 12, 13),
            tok(Kind::EoF, 13, 13),
        ]
    );
}

#[test]
fn comment_ends_at_the_first_close() {
    assert_eq!(
        scan("/* a */ b */"),
        vec![
            tok(Kind::Comment, 0, 7),
            tok(Kind::Ident, 8, 9),
            tok(Kind::Multi, 10, 11),
            tok(Kind::Divide, 11, 12),
            tok(Kind::EoF, 12, 12),
        ]
    );
}

#[test]
fn comment_closed_after_a_run_of_stars() {
    assert_eq!(scan("/* a **/"), vec![tok(Kind::Comment, 0, 8), tok(Kind::EoF, 8, 8)]);
    assert_eq!(scan("/***/"), vec![tok(Kind::Comment, 0, 5), tok(Kind::EoF, 5, 5)]);
    assert_eq!(scan("/* * / */"), vec![tok(Kind::Comment, 0, 9), tok(Kind::EoF, 9, 9)]);
}

#[test]
fn comments_do_not_nest() {
    assert_eq!(
        kinds("/* /* */ */"),
        vec![Kind::Comment, Kind::Multi, Kind::Divide, Kind::EoF]
    );
}

#[test]
fn unterminated_comment_is_reported() {
    assert_eq!(
        scan("/*"),
        vec![tok(Kind::UnterminatedComment, 0, 2), tok(Kind::EoF, 2, 2)]
    );
}

#[test]
fn unterminated_comment_takes_the_rest() {
    assert_eq!(
        scan("x /* never closed; y"),
        vec![
            tok(Kind::Ident, 0, 1),
            tok(Kind::UnterminatedComment, 2, 20),
            tok(Kind::EoF, 20, 20),
        ]
    );
    // The star of the opener does not close the comment.
    assert_eq!(
        scan("/*/"),
        vec![tok(Kind::UnterminatedComment, 0, 3), tok(Kind::EoF, 3, 3)]
    );
    assert_eq!(
        scan("/* *"),
        vec![tok(Kind::UnterminatedComment, 0, 4), tok(Kind::EoF, 4, 4)]
    );
}

#[test]
fn string_literal_spans_both_quotes() {
    assert_eq!(
        scan("\"hi there\""),
        vec![tok(Kind::String, 0, 10), tok(Kind::EoF, 10, 10)]
    );
    assert_eq!(scan("\"\""), vec![tok(Kind::String, 0, 2), tok(Kind::EoF, 2, 2)]);
}

#[test]
fn string_literal_holds_anything() {
    assert_eq!(
        scan("x = \"a /* b */ , let\";"),
        vec![
            tok(Kind::Ident, 0, 1),
            tok(Kind::Equal, 2, 3),
            tok(Kind::String, 4, 21),
            tok(Kind::SemiColon, 21, 22),
            tok(Kind::EoF, 22, 22),
        ]
    );
}

#[test]
fn two_string_literals() {
    assert_eq!(
        scan("\"a\"\"b\""),
        vec![tok(Kind::String, 0, 3), tok(Kind::String, 3, 6), tok(Kind::EoF, 6, 6)]
    );
}

#[test]
fn unterminated_string_is_dropped() {
    assert_eq!(scan("\"abc"), vec![tok(Kind::EoF, 4, 4)]);
    assert_eq!(scan("\""), vec![tok(Kind::EoF, 1, 1)]);
    assert_eq!(
        scan("x = \"abc; y"),
        vec![tok(Kind::Ident, 0, 1), tok(Kind::Equal, 2, 3), tok(Kind::EoF, 11, 11)]
    );
}

#[test]
fn numbers_are_runs_of_digits_and_dots() {
    assert_eq!(scan("42"), vec![tok(Kind::Numeric, 0, 2), tok(Kind::EoF, 2, 2)]);
    assert_eq!(scan("3.14"), vec![tok(Kind::Numeric, 0, 4), tok(Kind::EoF, 4, 4)]);
    assert_eq!(scan("1.2.3"), vec![tok(Kind::Numeric, 0, 5), tok(Kind::EoF, 5, 5)]);
    assert_eq!(scan("1.."), vec![tok(Kind::Numeric, 0, 3), tok(Kind::EoF, 3, 3)]);
    assert_eq!(scan("7."), vec![tok(Kind::Numeric, 0, 2), tok(Kind::EoF, 2, 2)]);
}

#[test]
fn a_dot_starts_nothing() {
    assert_eq!(scan(".5"), vec![tok(Kind::Numeric, 1, 2), tok(Kind::EoF, 2, 2)]);
    assert_eq!(scan("."), vec![tok(Kind::EoF, 1, 1)]);
    assert_eq!(
        scan("a.b"),
        vec![tok(Kind::Ident, 0, 1), tok(Kind::Ident, 2, 3), tok(Kind::EoF, 3, 3)]
    );
}

#[test]
fn a_number_ends_at_a_letter() {
    assert_eq!(
        scan("12ab"),
        vec![tok(Kind::Numeric, 0, 2), tok(Kind::Ident, 2, 4), tok(Kind::EoF, 4, 4)]
    );
    assert_eq!(
        scan("-1"),
        vec![tok(Kind::Minus, 0, 1), tok(Kind::Numeric, 1, 2), tok(Kind::EoF, 2, 2)]
    );
    assert_eq!(
        scan("1e5"),
        vec![tok(Kind::Numeric, 0, 1), tok(Kind::Ident, 1, 3), tok(Kind::EoF, 3, 3)]
    );
}

#[test]
fn identifiers_are_letters_then_letters_and_digits() {
    assert_eq!(scan("abc"), vec![tok(Kind::Ident, 0, 3), tok(Kind::EoF, 3, 3)]);
    assert_eq!(scan("a1b2"), vec![tok(Kind::Ident, 0, 4), tok(Kind::EoF, 4, 4)]);
    assert_eq!(scan("X"), vec![tok(Kind::Ident, 0, 1), tok(Kind::EoF, 1, 1)]);
}

#[test]
fn underscore_does_not_continue_an_identifier() {
    assert_eq!(
        scan("a_b"),
        vec![tok(Kind::Ident, 0, 1), tok(Kind::Ident, 2, 3), tok(Kind::EoF, 3, 3)]
    );
    assert_eq!(scan("_"), vec![tok(Kind::EoF, 1, 1)]);
}

#[test]
fn stray_characters_leave_no_trace() {
    assert_eq!(scan(",!@#$%^&"), vec![tok(Kind::EoF, 8, 8)]);
    assert_eq!(
        scan("a , b"),
        vec![tok(Kind::Ident, 0, 1), tok(Kind::Ident, 4, 5), tok(Kind::EoF, 5, 5)]
    );
    assert_eq!(
        scan("[1]"),
        vec![tok(Kind::Numeric, 1, 2), tok(Kind::EoF, 3, 3)]
    );
}

#[test]
fn a_token_after_a_stray_character_spans_itself_only() {
    let source = "x,  let";
    let tokens = scan(source);
    assert_eq!(
        tokens,
        vec![tok(Kind::Ident, 0, 1), tok(Kind::Let, 4, 7), tok(Kind::EoF, 7, 7)]
    );
    assert_eq!(Lexer::new(source).get_value(&tokens[1]), "let");
}

#[test]
fn end_token_sits_at_the_end_after_stray_characters() {
    assert_eq!(scan("a ,"), vec![tok(Kind::Ident, 0, 1), tok(Kind::EoF, 3, 3)]);
    assert_eq!(scan("a  "), vec![tok(Kind::Ident, 0, 1), tok(Kind::EoF, 3, 3)]);
}

#[test]
fn spans_are_byte_offsets() {
    // 'é' takes two bytes, '藏' three, '𝒳' four.
    assert_eq!(
        scan("é = 1"),
        vec![
            tok(Kind::Ident, 0, 2),
            tok(Kind::Equal, 3, 4),
            tok(Kind::Numeric, 5, 6),
            tok(Kind::EoF, 6, 6),
        ]
    );
    assert_eq!(
        scan("藏x+𝒳;"),
        vec![
            tok(Kind::Ident, 0, 4),
            tok(Kind::Plus, 4, 5),
            tok(Kind::Ident, 5, 9),
            tok(Kind::SemiColon, 9, 10),
            tok(Kind::EoF, 10, 10),
        ]
    );
}

#[test]
fn stray_characters_of_several_bytes() {
    assert_eq!(
        scan("a ≠ b"),
        vec![tok(Kind::Ident, 0, 1), tok(Kind::Ident, 6, 7), tok(Kind::EoF, 7, 7)]
    );
    assert_eq!(scan("→"), vec![tok(Kind::EoF, 3, 3)]);
}

#[test]
fn numeric_characters_beyond_ascii() {
    // ARABIC-INDIC DIGIT THREE, two bytes; VULGAR FRACTION THREE QUARTERS, two bytes.
    assert_eq!(scan("٣"), vec![tok(Kind::Numeric, 0, 2), tok(Kind::EoF, 2, 2)]);
    assert_eq!(scan("1¾"), vec![tok(Kind::Numeric, 0, 3), tok(Kind::EoF, 3, 3)]);
    assert_eq!(scan("x٣"), vec![tok(Kind::Ident, 0, 3), tok(Kind::EoF, 3, 3)]);
}

#[test]
fn unterminated_string_of_several_bytes() {
    assert_eq!(scan("\"é藏"), vec![tok(Kind::EoF, 6, 6)]);
    assert_eq!(scan("\"é藏\""), vec![tok(Kind::String, 0, 7), tok(Kind::EoF, 7, 7)]);
}

#[test]
fn comment_of_several_bytes() {
    assert_eq!(scan("/*é*/x"), vec![tok(Kind::Comment, 0, 6), tok(Kind::Ident, 6, 7), tok(Kind::EoF, 7, 7)]);
    assert_eq!(scan("/*藏"), vec![tok(Kind::UnterminatedComment, 0, 5), tok(Kind::EoF, 5, 5)]);
}

#[test]
fn reserved_words_get_their_kinds() {
    assert_eq!(
        scan("func let mut struct return"),
        vec![
            tok(Kind::Func, 0, 4),
            tok(Kind::Let, 5, 8),
            tok(Kind::Mut, 9, 12),
            tok(Kind::Struct, 13, 19),
            tok(Kind::Return, 20, 26),
            tok(Kind::EoF, 26, 26),
        ]
    );
}

#[test]
fn reserved_words_are_matched_whole_and_in_lower_case() {
    assert_eq!(
        kinds("function lets mutable structs returned fun le re Let FUNC"),
        vec![
            Kind::Ident,
            Kind::Ident,
            Kind::Ident,
            Kind::Ident,
            Kind::Ident,
            Kind::Ident,
            Kind::Ident,
            Kind::Ident,
            Kind::Ident,
            Kind::Ident,
            Kind::EoF,
        ]
    );
}

#[test]
fn reserved_words_inside_other_tokens_stay_there() {
    assert_eq!(kinds("\"let\""), vec![Kind::String, Kind::EoF]);
    assert_eq!(kinds("/* return */"), vec![Kind::Comment, Kind::EoF]);
    assert_eq!(kinds("let1"), vec![Kind::Ident, Kind::EoF]);
    assert_eq!(kinds("1let"), vec![Kind::Numeric, Kind::Let, Kind::EoF]);
}

#[test]
fn struct_definition() {
    assert_eq!(
        kinds("struct P { x: 1; mut y: 2.5 }"),
        vec![
            Kind::Struct,
            Kind::Ident,
            Kind::StartBrak,
            Kind::Ident,
            Kind::Colon,
            Kind::Numeric,
            Kind::SemiColon,
            Kind::Mut,
            Kind::Ident,
            Kind::Colon,
            Kind::Numeric,
            Kind::EndBrak,
            Kind::EoF,
        ]
    );
}

#[test]
fn scanning_twice_gives_the_same_tokens() {
    let source = "let a = \"s\"; /* c */ a += 1.5";
    assert_eq!(scan(source), scan(source));
}

#[test]
fn a_scanner_that_is_done_gives_the_end_token() {
    let mut lexer = Lexer::new("a b");
    let first = lexer.tokens();
    assert_eq!(first.len(), 3);
    assert_eq!(lexer.tokens(), vec![tok(Kind::EoF, 3, 3)]);
    assert_eq!(lexer.offset(), 3);
}

#[test]
fn tokens_continues_from_the_position() {
    let mut lexer = Lexer::new("let x = 1");
    assert_eq!(lexer.read_next_token(), tok(Kind::Ident, 0, 3));
    assert_eq!(
        lexer.tokens(),
        vec![
            tok(Kind::Ident, 4, 5),
            tok(Kind::Equal, 6, 7),
            tok(Kind::Numeric, 8, 9),
            tok(Kind::EoF, 9, 9),
        ]
    );
}

#[test]
fn read_next_token_one_by_one() {
    let mut lexer = Lexer::new("  a /*c*/ , \"s\" 1");
    assert_eq!(lexer.read_next_token(), tok(Kind::Ident, 2, 3));
    assert_eq!(lexer.offset(), 3);
    assert_eq!(lexer.read_next_token(), tok(Kind::Comment, 4, 9));
    assert_eq!(lexer.read_next_token(), tok(Kind::String, 12, 15));
    assert_eq!(lexer.read_next_token(), tok(Kind::Numeric, 16, 17));
    assert_eq!(lexer.read_next_token(), tok(Kind::EoF, 17, 17));
    assert_eq!(lexer.read_next_token(), tok(Kind::EoF, 17, 17));
}

#[test]
fn read_next_token_leaves_words_as_identifiers() {
    let mut lexer = Lexer::new("let");
    assert_eq!(lexer.read_next_token(), tok(Kind::Ident, 0, 3));
}

#[test]
fn long_input() {
    let mut source = String::new();
    for _ in 0..2000 {
        source.push_str("let x1 = 2.5; /* c */ ");
    }
    let tokens = scan(&source);
    assert_eq!(tokens.len(), 2000 * 6 + 1);
    assert_eq!(tokens[tokens.len() - 1], tok(Kind::EoF, source.len(), source.len()));
    assert_eq!(tokens[6], tok(Kind::Let, 22, 25));
}
