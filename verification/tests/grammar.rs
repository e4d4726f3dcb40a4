use squiggle::ast::Expr;
use squiggle::glyph::{classify, classify_char, Cell};
use squiggle::parser::{parse_cells, parse_program, SyntaxError, NESTING_LIMIT};
use squiggle::token::{Token, TokenSet};

fn num(digits: &str) -> Expr {
    Expr::Num(digits.to_string())
}

fn ident(name: &str) -> Expr {
    Expr::Ident(name.to_string())
}

fn neg(e: Expr) -> Expr {
    Expr::Neg(Box::new(e))
}

fn add(l: Expr, r: Expr) -> Expr {
    Expr::Add(Box::new(l), Box::new(r))
}

fn sub(l: Expr, r: Expr) -> Expr {
    Expr::Sub(Box::new(l), Box::new(r))
}

fn mul(l: Expr, r: Expr) -> Expr {
    Expr::Mul(Box::new(l), Box::new(r))
}

fn div(l: Expr, r: Expr) -> Expr {
    Expr::Div(Box::new(l), Box::new(r))
}

fn assign(name: &str, value: Expr) -> Expr {
    Expr::Assign { name: name.to_string(), value: Box::new(value) }
}

fn key_value(key: &str, value: Expr) -> Expr {
    Expr::KeyValue { key: key.to_string(), value: Box::new(value) }
}

fn object(key_values: Vec<Expr>) -> Expr {
    Expr::ObjectLiteral { key_values }
}

fn set(tokens: &[Token]) -> TokenSet {
    let mut all = TokenSet::empty();
    for t in tokens {
        all = all.union(TokenSet::single(*t));
    }
    all
}

fn unexpected(offset: usize, tokens: &[Token]) -> Result<Vec<Expr>, Vec<SyntaxError>> {
    Err(vec![SyntaxError::Unexpected { offset, expected: set(tokens) }])
}

fn value_of(e: &Expr) -> f64 {
    match e {
        Expr::Num(digits) => digits.parse::<f64>().unwrap(),
        other => panic!("not a number: {:?}", other),
    }
}

#[test]
fn product_binds_tighter_than_sum() {
    assert_eq!(parse_program("1 + 2 * 3"), Ok(vec![add(num("1"), mul(num("2"), num("3")))]));
}

#[test]
fn negation_and_subtraction() {
    assert_eq!(parse_program("-1 - -2"), Ok(vec![sub(neg(num("1")), neg(num("2")))]));
}

#[test]
fn assignment_of_a_number() {
    assert_eq!(parse_program("x = 5"), Ok(vec![assign("x", num("5"))]));
}

#[test]
fn object_literal_keeps_the_order_of_its_entries() {
    assert_eq!(
        parse_program("{ a: 1 b: 2 }"),
        Ok(vec![object(vec![key_value("a", num("1")), key_value("b", num("2"))])])
    );
}

#[test]
fn braces_without_colons_are_a_block() {
    assert_eq!(
        parse_program("{ 1 2 3 }"),
        Ok(vec![Expr::Block(vec![num("1"), num("2"), num("3")])])
    );
}

#[test]
fn trailing_operator_is_an_error() {
    assert_eq!(
        parse_program("1 +"),
        unexpected(3, &[Token::Digit, Token::LeftParen, Token::Minus])
    );
}

#[test]
fn literal_digits_give_the_number() {
    let items = parse_program("1452").unwrap();
    assert_eq!(items, vec![num("1452")]);
    assert_eq!(value_of(&items[0]), 1452.0);
    let items = parse_program("007").unwrap();
    assert_eq!(items, vec![num("007")]);
    assert_eq!(value_of(&items[0]), 7.0);
}

#[test]
fn operators_of_one_level_group_from_the_left() {
    assert_eq!(
        parse_program("1 + 2 + 3 - 4"),
        Ok(vec![sub(add(add(num("1"), num("2")), num("3")), num("4"))])
    );
    assert_eq!(parse_program("8 / 4 / 2"), Ok(vec![div(div(num("8"), num("4")), num("2"))]));
    assert_eq!(
        parse_program("1 * (2 + 3) / 4"),
        Ok(vec![div(mul(num("1"), add(num("2"), num("3"))), num("4"))])
    );
}

#[test]
fn each_minus_negates_what_stands_to_its_right() {
    assert_eq!(parse_program("---7"), Ok(vec![neg(neg(neg(num("7"))))]));
    assert_eq!(parse_program("- - 1"), Ok(vec![neg(neg(num("1")))]));
    assert_eq!(parse_program("2 * -3"), Ok(vec![mul(num("2"), neg(num("3")))]));
    assert_eq!(parse_program("-(-(1))"), Ok(vec![neg(neg(num("1")))]));
}

#[test]
fn parentheses_leave_no_node() {
    assert_eq!(parse_program("(((7)))"), Ok(vec![num("7")]));
    assert_eq!(parse_program("( 1 )"), Ok(vec![num("1")]));
}

#[test]
fn names_take_letters_digits_dash_and_underscore() {
    assert_eq!(parse_program("a-b"), Ok(vec![ident("a-b")]));
    assert_eq!(parse_program("_x1"), Ok(vec![ident("_x1")]));
    assert_eq!(parse_program("12ab"), Ok(vec![num("12"), ident("ab")]));
    assert_eq!(parse_program("\u{e9}t\u{e9} = 1"), Ok(vec![assign("\u{e9}t\u{e9}", num("1"))]));
    assert_eq!(parse_program("a - b"), Ok(vec![ident("a"), ident("-"), ident("b")]));
    assert_eq!(parse_program("1 -b"), Ok(vec![num("1"), ident("-b")]));
}

#[test]
fn assignment_comes_before_every_other_alternative() {
    assert_eq!(parse_program("3 = 4"), Ok(vec![assign("3", num("4"))]));
    assert_eq!(parse_program("x = y = 3"), Ok(vec![assign("x", assign("y", num("3")))]));
    assert_eq!(parse_program("a = - 1"), Ok(vec![assign("a", neg(num("1")))]));
    assert_eq!(
        parse_program("x = { 1 }"),
        Ok(vec![assign("x", Expr::Block(vec![num("1")]))])
    );
}

#[test]
fn separators_are_tilde_or_white_space_or_nothing() {
    let three = Ok(vec![ident("a"), ident("b"), ident("c")]);
    assert_eq!(parse_program("a b c"), three);
    assert_eq!(parse_program("a ~ b ~ c"), three);
    assert_eq!(parse_program("a~b~c"), three);
    assert_eq!(parse_program("a\n~\tb c ~"), three);
    assert_eq!(parse_program(" a b c \n"), three);
    assert_eq!(parse_program("1(2)"), Ok(vec![num("1"), num("2")]));
}

#[test]
fn one_trailing_separator_and_no_leading_one() {
    assert_eq!(parse_program("1 ~"), Ok(vec![num("1")]));
    assert_eq!(
        parse_program("1 ~ ~"),
        unexpected(
            4,
            &[
                Token::Digit,
                Token::NameChar,
                Token::LeftParen,
                Token::LeftBrace,
                Token::Minus,
                Token::EndOfInput
            ]
        )
    );
    assert!(parse_program("~ 1").is_err());
    assert_eq!(parse_program("{ 1 ~ 2 ~ }"), Ok(vec![Expr::Block(vec![num("1"), num("2")])]));
}

#[test]
fn blocks_may_be_empty_and_nest() {
    assert_eq!(parse_program("{}"), Ok(vec![Expr::Block(vec![])]));
    assert_eq!(
        parse_program("{ {} {} }"),
        Ok(vec![Expr::Block(vec![Expr::Block(vec![]), Expr::Block(vec![])])])
    );
    assert_eq!(
        parse_program("{ a = 1 b = 2 }"),
        Ok(vec![Expr::Block(vec![assign("a", num("1")), assign("b", num("2"))])])
    );
}

#[test]
fn white_space_alone_is_no_list() {
    assert_eq!(
        parse_program("{ }"),
        unexpected(
            2,
            &[Token::Digit, Token::NameChar, Token::LeftParen, Token::LeftBrace, Token::Minus]
        )
    );
}

#[test]
fn object_literals_nest_and_need_an_entry() {
    assert_eq!(
        parse_program("{ a: { b: 1 } }"),
        Ok(vec![object(vec![key_value("a", object(vec![key_value("b", num("1"))]))])])
    );
    assert_eq!(parse_program("{a:1}"), Ok(vec![object(vec![key_value("a", num("1"))])]));
    assert_eq!(parse_program("{ 1: 2 }"), Ok(vec![object(vec![key_value("1", num("2"))])]));
    assert!(parse_program("{ a: 1 b }").is_err());
    assert!(parse_program("{ a: 1 ~ b: 2 }").is_err());
}

#[test]
fn a_program_needs_an_expression() {
    let start = [Token::Digit, Token::NameChar, Token::LeftParen, Token::LeftBrace, Token::Minus];
    assert_eq!(parse_program(""), unexpected(0, &start));
    assert_eq!(parse_program(" \n"), unexpected(2, &start));
}

#[test]
fn leftover_input_is_an_error() {
    let r = parse_program("1 )");
    match r {
        Err(errors) => {
            assert_eq!(errors.len(), 1);
            assert_eq!(errors[0].offset(), 2);
            match errors[0] {
                SyntaxError::Unexpected { expected, .. } => {
                    assert!(expected.contains(Token::EndOfInput));
                    assert!(expected.contains(Token::Plus));
                    assert!(expected.contains(Token::Tilde));
                    assert!(!expected.contains(Token::RightParen));
                    assert!(!expected.is_empty());
                }
                SyntaxError::TooDeep { .. } => panic!("not deep"),
            }
        }
        Ok(items) => panic!("accepted as {:?}", items),
    }
}

#[test]
fn the_error_is_at_the_furthest_offset_reached() {
    assert_eq!(
        parse_program("(1 + 2"),
        unexpected(
            6,
            &[Token::Digit, Token::RightParen, Token::Plus, Token::Minus, Token::Star, Token::Slash]
        )
    );
    assert_eq!(
        parse_program("a = "),
        unexpected(
            4,
            &[Token::Digit, Token::NameChar, Token::LeftParen, Token::LeftBrace, Token::Minus]
        )
    );
    assert_eq!(
        parse_program("{ a: 1"),
        unexpected(
            6,
            &[
                Token::Digit,
                Token::NameChar,
                Token::RightBrace,
                Token::Equals,
                Token::Plus,
                Token::Minus,
                Token::Star,
                Token::Slash
            ]
        )
    );
}

#[test]
fn nesting_is_followed_up_to_the_limit() {
    assert_eq!(NESTING_LIMIT, 128);
    let inside = NESTING_LIMIT - 1;
    let fits = format!("{}1{}", "(".repeat(inside), ")".repeat(inside));
    assert_eq!(parse_program(&fits), Ok(vec![num("1")]));
    let deep = format!("{}1{}", "(".repeat(inside + 1), ")".repeat(inside + 1));
    assert_eq!(parse_program(&deep), Err(vec![SyntaxError::TooDeep { offset: inside + 1 }]));
    let blocks = format!("{} 1 {}", "{".repeat(inside + 1), "}".repeat(inside + 1));
    assert_eq!(parse_program(&blocks), Err(vec![SyntaxError::TooDeep { offset: inside + 2 }]));
}

#[test]
fn operator_chains_do_not_count_as_nesting() {
    let minuses = format!("{}1", "-".repeat(1000));
    let mut expected = num("1");
    for _ in 0..1000 {
        expected = neg(expected);
    }
    assert_eq!(parse_program(&minuses), Ok(vec![expected]));
    let mut text = String::from("0");
    let mut expected = num("0");
    for _ in 0..1000 {
        text.push_str(" + 1");
        expected = add(expected, num("1"));
    }
    assert_eq!(parse_program(&text), Ok(vec![expected]));
}

#[test]
fn the_limit_is_the_callers_to_choose() {
    let cells = classify("((1))");
    assert_eq!(parse_cells(&cells, 3), Ok(vec![num("1")]));
    assert_eq!(parse_cells(&cells, 2), Err(vec![SyntaxError::TooDeep { offset: 2 }]));
    assert_eq!(parse_cells(&cells, 0), Err(vec![SyntaxError::TooDeep { offset: 0 }]));
    assert_eq!(parse_cells(&classify("x = 1"), 1), Err(vec![SyntaxError::TooDeep { offset: 4 }]));
    assert_eq!(parse_cells(&classify("1 + 2"), 1), Ok(vec![add(num("1"), num("2"))]));
    assert_eq!(parse_cells(&classify("1 + 2"), 1), parse_cells(&classify("1 + 2"), 1000));
}

#[test]
fn the_parser_goes_by_the_flags_of_the_cells() {
    let plain = |ch: char| Cell { ch, blank: false, alnum: false };
    let cells = vec![
        plain('1'),
        Cell { ch: 'x', blank: true, alnum: false },
        plain('+'),
        plain('2'),
    ];
    assert_eq!(parse_cells(&cells, 8), Ok(vec![add(num("1"), num("2"))]));
    let cells = vec![plain('a')];
    assert_eq!(
        parse_cells(&cells, 8),
        unexpected(
            0,
            &[Token::Digit, Token::NameChar, Token::LeftParen, Token::LeftBrace, Token::Minus]
        )
    );
    let cells = vec![Cell { ch: '+', blank: false, alnum: true }];
    assert_eq!(parse_cells(&cells, 8), Ok(vec![ident("+")]));
}

#[test]
fn classification_follows_unicode() {
    assert_eq!(classify_char(' '), Cell { ch: ' ', blank: true, alnum: false });
    assert_eq!(classify_char('\u{a0}'), Cell { ch: '\u{a0}', blank: true, alnum: false });
    assert_eq!(classify_char('q'), Cell { ch: 'q', blank: false, alnum: true });
    assert_eq!(classify_char('\u{661}'), Cell { ch: '\u{661}', blank: false, alnum: true });
    assert_eq!(classify_char('{'), Cell { ch: '{', blank: false, alnum: false });
    assert_eq!(
        classify("a 1"),
        vec![classify_char('a'), classify_char(' '), classify_char('1')]
    );
    assert_eq!(parse_program("a\u{a0}b"), Ok(vec![ident("a"), ident("b")]));
    assert_eq!(parse_program("\u{661}"), Ok(vec![ident("\u{661}")]));
}

#[test]
fn token_sets() {
    let all = [
        Token::Digit,
        Token::NameChar,
        Token::LeftParen,
        Token::RightParen,
        Token::LeftBrace,
        Token::RightBrace,
        Token::Colon,
        Token::Equals,
        Token::Plus,
        Token::Minus,
        Token::Star,
        Token::Slash,
        Token::Tilde,
        Token::EndOfInput,
    ];
    assert!(TokenSet::empty().is_empty());
    for t in all {
        let one = TokenSet::single(t);
        assert!(!one.is_empty());
        for u in all {
            assert_eq!(one.contains(u), t == u);
            let two = one.union(TokenSet::single(u));
            assert!(two.contains(t) && two.contains(u));
            assert_eq!(two, TokenSet::single(u).union(one));
        }
        assert_eq!(one.union(TokenSet::empty()), one);
    }
}

#[test]
fn what_the_grammar_builds_is_well_formed() {
    fn check(e: &Expr) {
        let name_ok = |n: &String| {
            !n.is_empty() && n.chars().all(|c| c.is_alphanumeric() || c == '-' || c == '_')
        };
        match e {
            Expr::Ident(n) => assert!(name_ok(n)),
            Expr::Num(d) => assert!(!d.is_empty() && d.chars().all(|c| c.is_ascii_digit())),
            Expr::Neg(e) => check(e),
            Expr::Add(l, r) | Expr::Sub(l, r) | Expr::Mul(l, r) | Expr::Div(l, r) => {
                check(l);
                check(r);
            }
            Expr::Assign { name, value } => {
                assert!(name_ok(name));
                check(value);
            }
            Expr::Block(items) => items.iter().for_each(check),
            Expr::ObjectLiteral { key_values } => {
                assert!(!key_values.is_empty());
                for entry in key_values {
                    match entry {
                        Expr::KeyValue { key, value } => {
                            assert!(name_ok(key));
                            check(value);
                        }
                        other => panic!("not an entry: {:?}", other),
                    }
                }
            }
            other => panic!("the grammar does not build {:?}", other),
        }
    }
    let text = "x = { a: -1 * (2 + 3) d: { 3 ~ e-f } } ~ { g = 4 / 5 - -6 } h";
    let items = parse_program(text).unwrap();
    assert_eq!(items.len(), 3);
    items.iter().for_each(check);
}

#[test]
fn ascii_is_classified_by_the_two_lists() {
    for code in 0u8..128 {
        let c = code as char;
        let cell = classify_char(c);
        assert_eq!(cell.ch, c);
        assert_eq!(cell.blank, c == ' ' || ('\t'..='\r').contains(&c), "{:?}", c);
        assert_eq!(
            cell.alnum,
            ('0'..='9').contains(&c) || ('A'..='Z').contains(&c) || ('a'..='z').contains(&c),
            "{:?}",
            c
        );
    }
}
