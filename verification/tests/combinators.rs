use chumsky::prelude::{choice, end, filter, just, recursive, Parser, Simple};
use chumsky::text;
use chumsky::text::TextParser;
use squiggle::ast::Expr;
use squiggle::parser::parse_program;

fn binary(make: fn(Box<Expr>, Box<Expr>) -> Expr) -> fn(Box<Expr>, Box<Expr>) -> Expr {
    make
}

/// The grammar once more, put together from parser combinators.
fn combined() -> impl Parser<char, Vec<Expr>, Error = Simple<char>> {
    let separator = just('~').padded().ignored().or(text::whitespace().ignored());
    let expression = recursive(|expression| {
        let name = filter(|c: &char| c.is_alphanumeric() || *c == '-' || *c == '_')
            .repeated()
            .at_least(1)
            .collect::<String>();
        let literal = text::int(10).map(Expr::Num).padded();
        let assignment = name
            .then_ignore(just('=').padded())
            .then(expression.clone())
            .map(|(name, value)| Expr::Assign { name, value: Box::new(value) });
        let block = expression
            .clone()
            .separated_by(separator)
            .allow_trailing()
            .delimited_by(just('{'), just('}'))
            .padded()
            .map(Expr::Block);
        let entry = name
            .then_ignore(just(':').padded())
            .then(expression.clone())
            .map(|(key, value)| Expr::KeyValue { key, value: Box::new(value) });
        let object_literal = entry
            .padded()
            .repeated()
            .at_least(1)
            .delimited_by(just('{'), just('}'))
            .padded()
            .map(|key_values| Expr::ObjectLiteral { key_values });
        let atom = literal.or(expression.delimited_by(just('('), just(')'))).padded();
        let unary = just('-')
            .padded()
            .repeated()
            .then(atom)
            .foldr(|_, operand| Expr::Neg(Box::new(operand)));
        let product = unary
            .clone()
            .then(
                just('*')
                    .padded()
                    .to(binary(Expr::Mul))
                    .or(just('/').padded().to(binary(Expr::Div)))
                    .then(unary)
                    .repeated(),
            )
            .foldl(|left, (make, right)| make(Box::new(left), Box::new(right)));
        let sum = product
            .clone()
            .then(
                just('+')
                    .padded()
                    .to(binary(Expr::Add))
                    .or(just('-').padded().to(binary(Expr::Sub)))
                    .then(product)
                    .repeated(),
            )
            .foldl(|left, (make, right)| make(Box::new(left), Box::new(right)));
        choice((assignment, block, object_literal, sum, name.map(Expr::Ident))).padded()
    });
    expression.separated_by(separator).at_least(1).allow_trailing().then_ignore(end())
}

fn compare(inputs: &[&str]) {
    let grammar = combined();
    for input in inputs {
        let theirs = grammar.parse(*input).ok();
        let ours = parse_program(input).ok();
        assert_eq!(ours, theirs, "on {:?}", input);
    }
}

#[test]
fn programs_read_as_the_combinators_read_them() {
    compare(&[
        "1 + 2 * 3", "-1 - -2", "x = 5", "{ a: 1 b: 2 }", "{ 1 2 3 }", "{}", "{1}", "( 1 )",
        "a ~ b", "a~b~", "x = y = 3", "{ a: { b: 1 } }", "1 2", "12ab", "a-b", "- - 1",
        "--1", "1--1", "1 - - 1", "a {\n  b\n}\nc\n", "1 * (2 + 3) / 4", "{a:1}",
        "{ a : 1 }", "x=1~y=2", "1 ~", "{ 1 ~ }", "{ 1 ~ 2 ~ }", "_", "-", "- = 1",
        "a = - 1", "3 = 4", "\u{e9} = 1", "\u{661}", "a\u{a0}b", "1 + 2 + 3 - 4",
        "8 / 4 / 2", "2 * -3", "(((7)))", "((1) + (2))", "{{}}", "{ {} {} }",
        "{ a: 1 } { b: 2 }", "x = { 1 }", "{ x = 1 }", "a b c", " a ", "\t1\t+\t2\t",
        "1 +\n 2", "10 20", "1 ~ 2", "1~2", "a = (b = 1)", "{ 1: 2 }", "{ -: 2 }",
        "1 * - 2", "- (1)", "(-1)", "-(-(1))", "{ a = 1 b = 2 }",
        "a {\n  b {\n    c\n  }\n}", "a - b", "a -b", "1 -b", "1 - b", "1(2)", "{1(2)}",
        "x = 1 {\n  y\n}  }", "a = 1\nb {\n  c\n  d = 2\n}\ne\n",
    ]);
}

#[test]
fn what_the_combinators_refuse_is_refused() {
    compare(&[
        "", " ", "\n", "1 +", "{ }", "(1", "a ~ ~ b", "~a", "{ x = 1 y }", "foo(1)",
        "{ a: 1 ~ b: 2 }", "{ ~ }", "{1 2", "1)", "{ { } }", "{ a: b: 1 }", "{ a: 1 b }",
        "( 1 ~ 2 )", "a: 1", "{ a: 1, b: 2 }", "1 + + 2", "1 * * 2", "a = ", "= 1",
        "x = 1 +", "(1 + ", "{ a: 1 + }", "1 2 +", "{ a: 1 }}", "1 }", "()", "x = = 1",
        "a {\n  b\n", "1 ~ ~",
    ]);
}
