//! The grammar, as functions from classified text and an offset to what is
//! read there.
//!
//! The grammar is an ordered choice: at every point the alternatives are
//! tried in a fixed order and the first that matches wins. Each production is
//! a function that, started at an offset, either hits (and says what it read
//! and where it stopped), misses, or finds more nesting than it may follow.
//! Besides its answer, every production reports the furthest offset at which
//! it looked for a token in vain, with the tokens wanted there; a failed parse
//! is explained by the furthest such offset of all.
//!
//! There is no separate pass for tokens. White space is skipped around every
//! construct that the grammar pads, and is never reported as missing. An
//! expression nested deeper than the limit ends the whole parse: once an
//! alternative was too deep, no later one is tried.
use vstd::prelude::*;
use crate::ast::Tree;
use crate::glyph::Cell;
use crate::token::{Token, TokenSet};

verus! {

/// The furthest offset at which a token was looked for in vain, and the
/// tokens that were looked for there.
pub ghost struct Far {
    pub at: int,
    pub expected: TokenSet,
}

/// Nothing was looked for in vain.
pub open spec fn far_none() -> Far {
    Far { at: 0, expected: TokenSet::none() }
}

/// `t` was looked for at `at` and not found.
pub open spec fn far_at(at: int, t: Token) -> Far {
    Far { at, expected: TokenSet::only(t) }
}

/// The further of two reports; where both stop at one offset, the tokens of
/// both.
pub open spec fn join(a: Far, b: Far) -> Far {
    if a.at > b.at {
        a
    } else if a.at < b.at {
        b
    } else {
        Far { at: a.at, expected: a.expected.or(b.expected) }
    }
}

/// What a production finds at an offset.
pub ghost enum Found<T> {
    /// It matches, reads `value` and stops at `next`.
    Hit { value: T, next: int },
    /// It does not match.
    Miss,
    /// An expression that starts at `at` lies deeper than the nesting limit.
    Deep { at: int },
}

/// What a production finds, and how far it looked.
pub ghost struct Step<T> {
    pub found: Found<T>,
    pub far: Far,
}

/// The answer of a production that matches.
pub open spec fn hit<T>(value: T, next: int, far: Far) -> Step<T> {
    Step { found: Found::Hit { value, next }, far }
}

/// The answer of a production that does not match.
pub open spec fn miss<T>(far: Far) -> Step<T> {
    Step { found: Found::Miss, far }
}

/// The answer of a production that met an expression too deep at `at`. It
/// carries no report: the parse ends there.
pub open spec fn deep<T>(at: int) -> Step<T> {
    Step { found: Found::Deep { at }, far: far_none() }
}

/// Why a text is not a program.
pub ghost enum Fault {
    /// No alternative of the grammar goes on at `at`, the furthest offset
    /// reached; any token of `expected` would have been read there.
    Unexpected { at: int, expected: TokenSet },
    /// The expression that starts at `at` is nested deeper than the limit.
    TooDeep { at: int },
}

/// A decimal digit.
pub open spec fn is_digit(c: Cell) -> bool {
    '0' <= c.ch && c.ch <= '9'
}

/// A character of a name.
pub open spec fn is_name_char(c: Cell) -> bool {
    c.alnum || c.ch == '-' || c.ch == '_'
}

/// The character at `p` is `ch`.
pub open spec fn at_symbol(s: Seq<Cell>, p: int, ch: char) -> bool {
    0 <= p < s.len() && s[p].ch == ch
}

/// How many white-space characters stand in a row from `p` on.
pub open spec fn blank_run(s: Seq<Cell>, p: int) -> nat
    decreases s.len() - p,
{
    if 0 <= p < s.len() && s[p].blank {
        1 + blank_run(s, p + 1)
    } else {
        0
    }
}

/// How many name characters stand in a row from `p` on.
pub open spec fn name_run(s: Seq<Cell>, p: int) -> nat
    decreases s.len() - p,
{
    if 0 <= p < s.len() && is_name_char(s[p]) {
        1 + name_run(s, p + 1)
    } else {
        0
    }
}

/// How many digits stand in a row from `p` on.
pub open spec fn digit_run(s: Seq<Cell>, p: int) -> nat
    decreases s.len() - p,
{
    if 0 <= p < s.len() && is_digit(s[p]) {
        1 + digit_run(s, p + 1)
    } else {
        0
    }
}

/// The characters from `from` up to `to`.
pub open spec fn text_between(s: Seq<Cell>, from: int, to: int) -> Seq<char> {
    Seq::new((to - from) as nat, |i: int| s[from + i].ch)
}

/// `to` lies beyond `from` and within the text. A list or a chain of
/// operators goes on only behind an item that advances; every item that hits
/// does, so the condition decides nothing and only makes the definitions well
/// founded.
pub open spec fn advances(s: Seq<Cell>, from: int, to: int) -> bool {
    from < to <= s.len()
}

/// Where a separator that starts at `p` ends: after `~` with the white space
/// around it, or else after any white space, of which there may be none.
pub open spec fn sep_end(s: Seq<Cell>, p: int) -> int {
    let start = p + blank_run(s, p);
    if at_symbol(s, start, '~') {
        start + 1 + blank_run(s, start + 1)
    } else {
        start
    }
}

/// How far a separator that starts at `p` looks in vain.
pub open spec fn sep_far(s: Seq<Cell>, p: int) -> Far {
    let start = p + blank_run(s, p);
    if at_symbol(s, start, '~') {
        far_none()
    } else {
        far_at(start, Token::Tilde)
    }
}

/// How many prefix `-` stand from `p` on, white space between them skipped.
pub open spec fn minus_count(s: Seq<Cell>, p: int) -> nat
    decreases s.len() - p,
{
    let start = p + blank_run(s, p);
    if at_symbol(s, start, '-') {
        1 + minus_count(s, start + 1)
    } else {
        0
    }
}

/// Where the prefix `-` that stand from `p` on end: behind the last of them,
/// or at `p` if there is none.
pub open spec fn minus_end(s: Seq<Cell>, p: int) -> int
    decreases s.len() - p,
{
    let start = p + blank_run(s, p);
    if at_symbol(s, start, '-') {
        minus_end(s, start + 1)
    } else {
        p
    }
}

/// `v` under `k` negations.
pub open spec fn negated(v: Tree, k: nat) -> Tree
    decreases k,
{
    if k == 0 {
        v
    } else {
        Tree::Neg(Box::new(negated(v, (k - 1) as nat)))
    }
}

/// An expression one level further down: with `depth` levels left it is an
/// [`expression`] that may itself nest `depth - 1` levels, with none left it
/// is too deep.
pub open spec fn nested(s: Seq<Cell>, p: int, depth: nat) -> Step<Tree>
    decreases depth, 0int, 0int,
{
    if depth == 0 {
        deep(p + blank_run(s, p))
    } else {
        expression(s, p, (depth - 1) as nat)
    }
}

/// `expression`: white space, then the first that matches of `assignment`,
/// `block`, `object_literal`, `sum` and a bare name, then white space.
pub open spec fn expression(s: Seq<Cell>, p: int, depth: nat) -> Step<Tree>
    decreases depth, 9int, 0int,
{
    let start = p + blank_run(s, p);
    let a = assignment(s, start, depth);
    if !(a.found is Miss) {
        padded(s, a, far_none())
    } else {
        let b = block(s, start, depth);
        if !(b.found is Miss) {
            padded(s, b, a.far)
        } else {
            let fb = join(a.far, b.far);
            let c = object_literal(s, start, depth);
            if !(c.found is Miss) {
                padded(s, c, fb)
            } else {
                let fc = join(fb, c.far);
                let e = sum(s, start, depth);
                if !(e.found is Miss) {
                    padded(s, e, fc)
                } else {
                    let fe = join(fc, e.far);
                    let n = name_run(s, start);
                    let fn_ = join(fe, far_at(start + n, Token::NameChar));
                    if n > 0 {
                        hit(
                            Tree::Ident(text_between(s, start, start + n)),
                            start + n + blank_run(s, start + n),
                            fn_,
                        )
                    } else {
                        miss(fn_)
                    }
                }
            }
        }
    }
}

/// What an alternative that did not miss gives for the whole expression: its
/// value with the white space behind it skipped, and `before` (what the
/// alternatives before it looked for) joined to its own report.
pub open spec fn padded(s: Seq<Cell>, r: Step<Tree>, before: Far) -> Step<Tree> {
    match r.found {
        Found::Hit { value, next } => hit(value, next + blank_run(s, next), join(before, r.far)),
        Found::Miss => miss(join(before, r.far)),
        Found::Deep { at } => deep(at),
    }
}

/// `assignment`: a name, `=` with white space around it, an expression.
pub open spec fn assignment(s: Seq<Cell>, p: int, depth: nat) -> Step<Tree>
    decreases depth, 1int, 0int,
{
    let n = name_run(s, p);
    let q = p + n;
    let q1 = q + blank_run(s, q);
    if n == 0 {
        miss(far_at(p, Token::NameChar))
    } else if !at_symbol(s, q1, '=') {
        miss(join(far_at(q, Token::NameChar), far_at(q1, Token::Equals)))
    } else {
        let v = nested(s, q1 + 1, depth);
        match v.found {
            Found::Hit { value, next } => hit(
                Tree::Assign { name: text_between(s, p, q), value: Box::new(value) },
                next,
                join(far_at(q, Token::NameChar), v.far),
            ),
            Found::Miss => miss(join(far_at(q, Token::NameChar), v.far)),
            Found::Deep { at } => deep(at),
        }
    }
}

/// `block`: `{`, a list of expressions, `}`.
pub open spec fn block(s: Seq<Cell>, p: int, depth: nat) -> Step<Tree>
    decreases depth, 3int, 0int,
{
    if !at_symbol(s, p, '{') {
        miss(far_at(p, Token::LeftBrace))
    } else {
        let l = list(s, p + 1, depth);
        match l.found {
            Found::Hit { value, next } => if at_symbol(s, next, '}') {
                hit(Tree::Block(value), next + 1, l.far)
            } else {
                miss(join(l.far, far_at(next, Token::RightBrace)))
            },
            Found::Miss => miss(l.far),
            Found::Deep { at } => deep(at),
        }
    }
}

/// A list of expressions: none, or one or more with a separator between any
/// two and, after the last, one more separator. It never misses.
pub open spec fn list(s: Seq<Cell>, p: int, depth: nat) -> Step<Seq<Tree>>
    decreases depth, 2int, 0int,
{
    let first = nested(s, p, depth);
    match first.found {
        Found::Hit { value, next } => list_tail(s, next, depth, seq![value], first.far),
        Found::Miss => hit(Seq::empty(), p, first.far),
        Found::Deep { at } => deep(at),
    }
}

/// The rest of a list whose items so far are `items`, the last of which
/// stopped at `q`; `far` is what has been reported up to there.
pub open spec fn list_tail(s: Seq<Cell>, q: int, depth: nat, items: Seq<Tree>, far: Far) -> Step<
    Seq<Tree>,
>
    decreases depth, 1int, s.len() - q,
{
    let q1 = sep_end(s, q);
    let r = nested(s, q1, depth);
    let far1 = join(join(far, sep_far(s, q)), r.far);
    match r.found {
        Found::Hit { value, next } => if advances(s, q, next) {
            list_tail(s, next, depth, items.push(value), far1)
        } else {
            hit(items, q1, far1)
        },
        Found::Miss => hit(items, q1, far1),
        Found::Deep { at } => deep(at),
    }
}

/// `object_literal`: `{`, one or more entries, `}`.
pub open spec fn object_literal(s: Seq<Cell>, p: int, depth: nat) -> Step<Tree>
    decreases depth, 3int, 0int,
{
    if !at_symbol(s, p, '{') {
        miss(far_at(p, Token::LeftBrace))
    } else {
        let l = entries(s, p + 1, depth, Seq::empty(), far_none());
        match l.found {
            Found::Hit { value, next } => if at_symbol(s, next, '}') {
                hit(Tree::ObjectLiteral { key_values: value }, next + 1, l.far)
            } else {
                miss(join(l.far, far_at(next, Token::RightBrace)))
            },
            Found::Miss => miss(l.far),
            Found::Deep { at } => deep(at),
        }
    }
}

/// The entries of an object literal from `p` on, after those in `items`:
/// entries are read until one misses, and there must be one at least.
pub open spec fn entries(s: Seq<Cell>, p: int, depth: nat, items: Seq<Tree>, far: Far) -> Step<
    Seq<Tree>,
>
    decreases depth, 2int, s.len() - p,
{
    let r = entry(s, p, depth);
    let far1 = join(far, r.far);
    match r.found {
        Found::Hit { value, next } if advances(s, p, next) => entries(
            s,
            next,
            depth,
            items.push(value),
            far1,
        ),
        Found::Deep { at } => deep(at),
        _ => if items.len() > 0 {
            hit(items, p, far1)
        } else {
            miss(far1)
        },
    }
}

/// An entry: white space, a name, `:` with white space around it, an
/// expression.
pub open spec fn entry(s: Seq<Cell>, p: int, depth: nat) -> Step<Tree>
    decreases depth, 1int, 0int,
{
    let start = p + blank_run(s, p);
    let n = name_run(s, start);
    let q = start + n;
    let q1 = q + blank_run(s, q);
    if n == 0 {
        miss(far_at(start, Token::NameChar))
    } else if !at_symbol(s, q1, ':') {
        miss(join(far_at(q, Token::NameChar), far_at(q1, Token::Colon)))
    } else {
        let v = nested(s, q1 + 1, depth);
        match v.found {
            Found::Hit { value, next } => hit(
                Tree::KeyValue { key: text_between(s, start, q), value: Box::new(value) },
                next,
                join(far_at(q, Token::NameChar), v.far),
            ),
            Found::Miss => miss(join(far_at(q, Token::NameChar), v.far)),
            Found::Deep { at } => deep(at),
        }
    }
}

/// `sum`: products joined by `+` or `-`, grouped from the left.
pub open spec fn sum(s: Seq<Cell>, p: int, depth: nat) -> Step<Tree>
    decreases depth, 8int, 0int,
{
    let first = product(s, p, depth);
    match first.found {
        Found::Hit { value, next } => sum_tail(s, next, depth, value, first.far),
        Found::Miss => miss(first.far),
        Found::Deep { at } => deep(at),
    }
}

/// The rest of a sum whose value so far is `left` and stopped at `q`.
pub open spec fn sum_tail(s: Seq<Cell>, q: int, depth: nat, left: Tree, far: Far) -> Step<Tree>
    decreases depth, 7int, s.len() - q,
{
    let q1 = q + blank_run(s, q);
    if at_symbol(s, q1, '+') || at_symbol(s, q1, '-') {
        let r = product(s, q1 + 1, depth);
        let far1 = join(far, r.far);
        match r.found {
            Found::Hit { value, next } if advances(s, q, next) => sum_tail(
                s,
                next,
                depth,
                if at_symbol(s, q1, '+') {
                    Tree::Add(Box::new(left), Box::new(value))
                } else {
                    Tree::Sub(Box::new(left), Box::new(value))
                },
                far1,
            ),
            Found::Deep { at } => deep(at),
            _ => hit(left, q, far1),
        }
    } else {
        hit(left, q, join(far, join(far_at(q1, Token::Plus), far_at(q1, Token::Minus))))
    }
}

/// `product`: unary terms joined by `*` or `/`, grouped from the left.
pub open spec fn product(s: Seq<Cell>, p: int, depth: nat) -> Step<Tree>
    decreases depth, 6int, 0int,
{
    let first = unary(s, p, depth);
    match first.found {
        Found::Hit { value, next } => product_tail(s, next, depth, value, first.far),
        Found::Miss => miss(first.far),
        Found::Deep { at } => deep(at),
    }
}

/// The rest of a product whose value so far is `left` and stopped at `q`.
pub open spec fn product_tail(s: Seq<Cell>, q: int, depth: nat, left: Tree, far: Far) -> Step<
    Tree,
>
    decreases depth, 5int, s.len() - q,
{
    let q1 = q + blank_run(s, q);
    if at_symbol(s, q1, '*') || at_symbol(s, q1, '/') {
        let r = unary(s, q1 + 1, depth);
        let far1 = join(far, r.far);
        match r.found {
            Found::Hit { value, next } if advances(s, q, next) => product_tail(
                s,
                next,
                depth,
                if at_symbol(s, q1, '*') {
                    Tree::Mul(Box::new(left), Box::new(value))
                } else {
                    Tree::Div(Box::new(left), Box::new(value))
                },
                far1,
            ),
            Found::Deep { at } => deep(at),
            _ => hit(left, q, far1),
        }
    } else {
        hit(left, q, join(far, join(far_at(q1, Token::Star), far_at(q1, Token::Slash))))
    }
}

/// `unary`: any number of prefix `-`, then an atom; each `-` negates what
/// stands to its right.
pub open spec fn unary(s: Seq<Cell>, p: int, depth: nat) -> Step<Tree>
    decreases depth, 4int, 0int,
{
    let q = minus_end(s, p);
    let a = atom(s, q, depth);
    let far = join(far_at(q + blank_run(s, q), Token::Minus), a.far);
    match a.found {
        Found::Hit { value, next } => hit(negated(value, minus_count(s, p)), next, far),
        Found::Miss => miss(far),
        Found::Deep { at } => deep(at),
    }
}

/// `atom`: white space, then an integer literal or an expression in
/// parentheses, then white space.
pub open spec fn atom(s: Seq<Cell>, p: int, depth: nat) -> Step<Tree>
    decreases depth, 3int, 0int,
{
    let start = p + blank_run(s, p);
    let n = digit_run(s, start);
    if n > 0 {
        hit(
            Tree::Num(text_between(s, start, start + n)),
            start + n + blank_run(s, start + n),
            far_at(start + n, Token::Digit),
        )
    } else if !at_symbol(s, start, '(') {
        miss(join(far_at(start, Token::Digit), far_at(start, Token::LeftParen)))
    } else {
        let e = nested(s, start + 1, depth);
        let far = join(far_at(start, Token::Digit), e.far);
        match e.found {
            Found::Hit { value, next } => if at_symbol(s, next, ')') {
                hit(value, next + 1 + blank_run(s, next + 1), far)
            } else {
                miss(join(far, far_at(next, Token::RightParen)))
            },
            Found::Miss => miss(far),
            Found::Deep { at } => deep(at),
        }
    }
}

/// `program`: a list of one or more expressions that takes up the whole
/// text, each nested `limit` levels at most.
pub open spec fn program(s: Seq<Cell>, limit: nat) -> Result<Seq<Tree>, Fault> {
    let l = list(s, 0, limit);
    match l.found {
        Found::Hit { value, next } => if value.len() > 0 && next == s.len() {
            Ok(value)
        } else if value.len() > 0 {
            let far = join(l.far, far_at(next, Token::EndOfInput));
            Err(Fault::Unexpected { at: far.at, expected: far.expected })
        } else {
            Err(Fault::Unexpected { at: l.far.at, expected: l.far.expected })
        },
        Found::Miss => Err(Fault::Unexpected { at: l.far.at, expected: l.far.expected }),
        Found::Deep { at } => Err(Fault::TooDeep { at }),
    }
}

} // verus!
