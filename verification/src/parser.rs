//! The parser: the grammar run as recursive descent over classified text.
use vstd::prelude::*;
use crate::ast::{lemma_trees_of, trees, Expr, Tree};
use crate::glyph::{all_known, classified, classify, truthful, Cell};
use crate::grammar_laws::{all_well_formed, lemma_fault_located, lemma_program_well_formed};
use crate::grammar::{
    assignment, at_symbol, atom, blank_run, block, deep, digit_run, entries, entry,
    expression, far_at, far_none, hit, is_digit, is_name_char, join, list, list_tail, minus_count,
    minus_end, miss, name_run, negated, nested, object_literal, padded, product, product_tail,
    program, sep_end, sep_far, sum, sum_tail, text_between, unary, Far, Fault, Found, Step,
};
use crate::token::{Token, TokenSet};

verus! {

/// How many levels of expressions within expressions [`parse_program`]
/// follows. An expression of the program itself is at level 1; what stands
/// in parentheses, in a block, in an entry or to the right of `=` is one level
/// further down. Chains of operators and of prefix `-` add no level.
pub const NESTING_LIMIT: usize = 128;

/// Why a text is not a program.
#[derive(Clone, Copy, Debug, PartialEq, Eq)]
pub enum SyntaxError {
    /// No alternative of the grammar goes on at `offset`, the furthest offset
    /// that the parser reached; any token of `expected` would have been read
    /// there.
    Unexpected { offset: usize, expected: TokenSet },
    /// The expression that starts at `offset` is nested deeper than the limit.
    TooDeep { offset: usize },
}

impl View for SyntaxError {
    type V = Fault;

    open spec fn view(&self) -> Fault {
        match self {
            SyntaxError::Unexpected { offset, expected } => Fault::Unexpected {
                at: *offset as int,
                expected: *expected,
            },
            SyntaxError::TooDeep { offset } => Fault::TooDeep { at: *offset as int },
        }
    }
}

impl SyntaxError {
    /// The offset, in characters, that the error points at.
    pub fn offset(&self) -> (at: usize)
        ensures
            at == match self@ {
                Fault::Unexpected { at, .. } => at,
                Fault::TooDeep { at } => at,
            },
    {
        match self {
            SyntaxError::Unexpected { offset, .. } => *offset,
            SyntaxError::TooDeep { offset } => *offset,
        }
    }
}

/// The furthest offset at which a token was looked for in vain.
#[derive(Clone, Copy)]
struct Frontier {
    offset: usize,
    expected: TokenSet,
}

impl View for Frontier {
    type V = Far;

    closed spec fn view(&self) -> Far {
        Far { at: self.offset as int, expected: self.expected }
    }
}

impl Frontier {
    fn none() -> (f: Frontier)
        ensures
            f@ == far_none(),
    {
        Frontier { offset: 0, expected: TokenSet::empty() }
    }

    fn at(offset: usize, t: Token) -> (f: Frontier)
        ensures
            f@ == far_at(offset as int, t),
    {
        Frontier { offset, expected: TokenSet::single(t) }
    }

    fn join(self, other: Frontier) -> (f: Frontier)
        ensures
            f@ == join(self@, other@),
    {
        if self.offset > other.offset {
            self
        } else if self.offset < other.offset {
            other
        } else {
            Frontier { offset: self.offset, expected: self.expected.union(other.expected) }
        }
    }
}

/// What a production found.
enum Parsed<T> {
    Hit(T, usize),
    Miss,
    Deep(usize),
}

/// What a production found, and how far it looked.
struct Outcome<T> {
    parsed: Parsed<T>,
    far: Frontier,
}

impl<T> Outcome<T> {
    spec fn is_miss(&self) -> bool {
        self.parsed is Miss
    }

    /// A hit stops beyond `p` and within the `len` characters of the text.
    spec fn lands(&self, p: int, len: int) -> bool {
        self.parsed matches Parsed::Hit(_, next) ==> p < next <= len
    }

    fn missed(&self) -> (b: bool)
        ensures
            b == self.is_miss(),
    {
        match &self.parsed {
            Parsed::Miss => true,
            _ => false,
        }
    }
}

/// What an answer with an expression stands for.
spec fn tree_step(o: Outcome<Expr>) -> Step<Tree> {
    match o.parsed {
        Parsed::Hit(value, next) => hit(value@, next as int, o.far@),
        Parsed::Miss => miss(o.far@),
        Parsed::Deep(at) => Step { found: Found::Deep { at: at as int }, far: o.far@ },
    }
}

/// What an answer with a list of expressions stands for.
spec fn trees_step(o: Outcome<Vec<Expr>>) -> Step<Seq<Tree>> {
    match o.parsed {
        Parsed::Hit(value, next) => hit(trees(value@), next as int, o.far@),
        Parsed::Miss => miss(o.far@),
        Parsed::Deep(at) => Step { found: Found::Deep { at: at as int }, far: o.far@ },
    }
}

/// The answer of a production that met an expression too deep at `at`.
fn too_deep<T>(at: usize) -> (o: Outcome<T>)
    ensures
        o.parsed == Parsed::<T>::Deep(at),
        o.far@ == far_none(),
{
    Outcome { parsed: Parsed::Deep(at), far: Frontier::none() }
}

/// Skips the white space from `p` on.
fn skip_blank(cells: &[Cell], p: usize) -> (q: usize)
    requires
        p <= cells.len(),
    ensures
        q == p + blank_run(cells@, p as int),
        q <= cells.len(),
{
    let mut q: usize = p;
    while q < cells.len() && cells[q].blank
        invariant
            p <= q <= cells.len(),
            q + blank_run(cells@, q as int) == p + blank_run(cells@, p as int),
        decreases cells.len() - q,
    {
        q += 1;
    }
    q
}

/// Whether the cell holds a character of a name.
fn name_char(c: &Cell) -> (b: bool)
    ensures
        b == is_name_char(*c),
{
    c.alnum || c.ch == '-' || c.ch == '_'
}

/// Whether the cell holds a decimal digit.
fn digit(c: &Cell) -> (b: bool)
    ensures
        b == is_digit(*c),
{
    '0' <= c.ch && c.ch <= '9'
}

/// Skips the name characters from `p` on.
fn name_end(cells: &[Cell], p: usize) -> (q: usize)
    requires
        p <= cells.len(),
    ensures
        q == p + name_run(cells@, p as int),
        q <= cells.len(),
{
    let mut q: usize = p;
    while q < cells.len() && name_char(&cells[q])
        invariant
            p <= q <= cells.len(),
            q + name_run(cells@, q as int) == p + name_run(cells@, p as int),
        decreases cells.len() - q,
    {
        q += 1;
    }
    q
}

/// Skips the digits from `p` on.
fn digit_end(cells: &[Cell], p: usize) -> (q: usize)
    requires
        p <= cells.len(),
    ensures
        q == p + digit_run(cells@, p as int),
        q <= cells.len(),
{
    let mut q: usize = p;
    while q < cells.len() && digit(&cells[q])
        invariant
            p <= q <= cells.len(),
            q + digit_run(cells@, q as int) == p + digit_run(cells@, p as int),
        decreases cells.len() - q,
    {
        q += 1;
    }
    q
}

/// Whether the character at `p` is `ch`.
fn symbol_at(cells: &[Cell], p: usize, ch: char) -> (b: bool)
    ensures
        b == at_symbol(cells@, p as int, ch),
{
    p < cells.len() && cells[p].ch == ch
}

/// Copies the characters from `from` up to `to`.
fn take_text(cells: &[Cell], from: usize, to: usize) -> (text: String)
    requires
        from <= to <= cells.len(),
    ensures
        text@ == text_between(cells@, from as int, to as int),
{
    let mut text = String::new();
    let mut i: usize = from;
    while i < to
        invariant
            from <= i <= to <= cells.len(),
            text@ == text_between(cells@, from as int, i as int),
        decreases to - i,
    {
        text.push(cells[i].ch);
        i += 1;
        assert(text@ =~= text_between(cells@, from as int, i as int));
    }
    text
}

/// Skips one separator from `p` on and says how far it looked for `~`.
fn skip_sep(cells: &[Cell], p: usize) -> (r: (usize, Frontier))
    requires
        p <= cells.len(),
    ensures
        r.0 == sep_end(cells@, p as int),
        r.1@ == sep_far(cells@, p as int),
        p <= r.0 <= cells.len(),
{
    let start: usize = skip_blank(cells, p);
    if symbol_at(cells, start, '~') {
        (skip_blank(cells, start + 1), Frontier::none())
    } else {
        (start, Frontier::at(start, Token::Tilde))
    }
}

/// Reads an expression one level further down, if a level is left.
fn parse_nested(cells: &[Cell], p: usize, depth: usize) -> (r: Outcome<Expr>)
    requires
        p <= cells.len(),
    ensures
        tree_step(r) == nested(cells@, p as int, depth as nat),
        r.lands(p as int, cells.len() as int),
    decreases depth, 0int, 0int,
{
    if depth == 0 {
        let at: usize = skip_blank(cells, p);
        too_deep(at)
    } else {
        parse_expression(cells, p, depth - 1)
    }
}

/// Finishes an expression with the answer `r` of the alternative that did not
/// miss: skips the white space behind a hit and joins `before` to its report.
fn pad(cells: &[Cell], p: usize, r: Outcome<Expr>, before: Frontier) -> (out: Outcome<Expr>)
    requires
        r.lands(p as int, cells.len() as int),
    ensures
        tree_step(out) == padded(cells@, tree_step(r), before@),
        out.lands(p as int, cells.len() as int),
{
    match r.parsed {
        Parsed::Hit(value, next) => {
            let q: usize = skip_blank(cells, next);
            Outcome { parsed: Parsed::Hit(value, q), far: before.join(r.far) }
        },
        Parsed::Miss => Outcome { parsed: Parsed::Miss, far: before.join(r.far) },
        Parsed::Deep(at) => too_deep(at),
    }
}

/// Reads an [`expression`] at `p`.
fn parse_expression(cells: &[Cell], p: usize, depth: usize) -> (r: Outcome<Expr>)
    requires
        p <= cells.len(),
    ensures
        tree_step(r) == expression(cells@, p as int, depth as nat),
        r.lands(p as int, cells.len() as int),
    decreases depth, 9int, 0int,
{
    let start: usize = skip_blank(cells, p);
    let a = parse_assignment(cells, start, depth);
    if !a.missed() {
        return pad(cells, start, a, Frontier::none());
    }
    let b = parse_block(cells, start, depth);
    if !b.missed() {
        return pad(cells, start, b, a.far);
    }
    let fb = a.far.join(b.far);
    let c = parse_object_literal(cells, start, depth);
    if !c.missed() {
        return pad(cells, start, c, fb);
    }
    let fc = fb.join(c.far);
    let e = parse_sum(cells, start, depth);
    if !e.missed() {
        return pad(cells, start, e, fc);
    }
    let fe = fc.join(e.far);
    let q: usize = name_end(cells, start);
    let far = fe.join(Frontier::at(q, Token::NameChar));
    if q > start {
        let name = take_text(cells, start, q);
        let next: usize = skip_blank(cells, q);
        Outcome { parsed: Parsed::Hit(Expr::Ident(name), next), far }
    } else {
        Outcome { parsed: Parsed::Miss, far }
    }
}

/// Reads an [`assignment`] at `p`.
fn parse_assignment(cells: &[Cell], p: usize, depth: usize) -> (r: Outcome<Expr>)
    requires
        p <= cells.len(),
    ensures
        tree_step(r) == assignment(cells@, p as int, depth as nat),
        r.lands(p as int, cells.len() as int),
    decreases depth, 1int, 0int,
{
    let q: usize = name_end(cells, p);
    if q == p {
        return Outcome { parsed: Parsed::Miss, far: Frontier::at(p, Token::NameChar) };
    }
    let q1: usize = skip_blank(cells, q);
    if !symbol_at(cells, q1, '=') {
        return Outcome {
            parsed: Parsed::Miss,
            far: Frontier::at(q, Token::NameChar).join(Frontier::at(q1, Token::Equals)),
        };
    }
    let v = parse_nested(cells, q1 + 1, depth);
    let far = Frontier::at(q, Token::NameChar).join(v.far);
    match v.parsed {
        Parsed::Hit(value, next) => {
            let name = take_text(cells, p, q);
            Outcome {
                parsed: Parsed::Hit(Expr::Assign { name, value: Box::new(value) }, next),
                far,
            }
        },
        Parsed::Miss => Outcome { parsed: Parsed::Miss, far },
        Parsed::Deep(at) => too_deep(at),
    }
}

/// Reads a [`block`] at `p`.
fn parse_block(cells: &[Cell], p: usize, depth: usize) -> (r: Outcome<Expr>)
    requires
        p <= cells.len(),
    ensures
        tree_step(r) == block(cells@, p as int, depth as nat),
        r.lands(p as int, cells.len() as int),
    decreases depth, 3int, 0int,
{
    if !symbol_at(cells, p, '{') {
        return Outcome { parsed: Parsed::Miss, far: Frontier::at(p, Token::LeftBrace) };
    }
    let l = parse_list(cells, p + 1, depth);
    match l.parsed {
        Parsed::Hit(items, next) => {
            if symbol_at(cells, next, '}') {
                proof {
                    lemma_trees_of(items);
                }
                Outcome { parsed: Parsed::Hit(Expr::Block(items), next + 1), far: l.far }
            } else {
                Outcome {
                    parsed: Parsed::Miss,
                    far: l.far.join(Frontier::at(next, Token::RightBrace)),
                }
            }
        },
        Parsed::Miss => Outcome { parsed: Parsed::Miss, far: l.far },
        Parsed::Deep(at) => too_deep(at),
    }
}

/// Reads a [`list`] of expressions at `p`.
fn parse_list(cells: &[Cell], p: usize, depth: usize) -> (r: Outcome<Vec<Expr>>)
    requires
        p <= cells.len(),
    ensures
        trees_step(r) == list(cells@, p as int, depth as nat),
        r.parsed matches Parsed::Hit(_, next) ==> p <= next <= cells.len(),
    decreases depth, 2int, 0int,
{
    let first = parse_nested(cells, p, depth);
    let mut items: Vec<Expr> = Vec::new();
    assert(trees(items@) =~= Seq::<Tree>::empty());
    match first.parsed {
        Parsed::Miss => Outcome { parsed: Parsed::Hit(items, p), far: first.far },
        Parsed::Deep(at) => too_deep(at),
        Parsed::Hit(value, next) => {
            assert(trees(items@.push(value)) =~= seq![value@]);
            items.push(value);
            let mut q: usize = next;
            let mut far = first.far;
            loop
                invariant
                    p < q <= cells.len(),
                    list_tail(cells@, q as int, depth as nat, trees(items@), far@) == list(
                        cells@,
                        p as int,
                        depth as nat,
                    ),
                decreases cells.len() - q,
            {
                let sep = skip_sep(cells, q);
                let q1: usize = sep.0;
                let r = parse_nested(cells, q1, depth);
                let far1 = far.join(sep.1).join(r.far);
                match r.parsed {
                    Parsed::Hit(value, next) => {
                        assert(trees(items@.push(value)) =~= trees(items@).push(value@));
                        items.push(value);
                        q = next;
                        far = far1;
                    },
                    Parsed::Miss => {
                        return Outcome { parsed: Parsed::Hit(items, q1), far: far1 };
                    },
                    Parsed::Deep(at) => {
                        return too_deep(at);
                    },
                }
            }
        },
    }
}

/// Reads an [`object_literal`] at `p`.
fn parse_object_literal(cells: &[Cell], p: usize, depth: usize) -> (r: Outcome<Expr>)
    requires
        p <= cells.len(),
    ensures
        tree_step(r) == object_literal(cells@, p as int, depth as nat),
        r.lands(p as int, cells.len() as int),
    decreases depth, 3int, 0int,
{
    if !symbol_at(cells, p, '{') {
        return Outcome { parsed: Parsed::Miss, far: Frontier::at(p, Token::LeftBrace) };
    }
    let l = parse_entries(cells, p + 1, depth);
    match l.parsed {
        Parsed::Hit(items, next) => {
            if symbol_at(cells, next, '}') {
                proof {
                    lemma_trees_of(items);
                }
                Outcome {
                    parsed: Parsed::Hit(Expr::ObjectLiteral { key_values: items }, next + 1),
                    far: l.far,
                }
            } else {
                Outcome {
                    parsed: Parsed::Miss,
                    far: l.far.join(Frontier::at(next, Token::RightBrace)),
                }
            }
        },
        Parsed::Miss => Outcome { parsed: Parsed::Miss, far: l.far },
        Parsed::Deep(at) => too_deep(at),
    }
}

/// Reads the [`entries`] of an object literal from `p` on.
fn parse_entries(cells: &[Cell], p: usize, depth: usize) -> (r: Outcome<Vec<Expr>>)
    requires
        p <= cells.len(),
    ensures
        trees_step(r) == entries(
            cells@,
            p as int,
            depth as nat,
            Seq::<Tree>::empty(),
            far_none(),
        ),
        r.parsed matches Parsed::Hit(_, next) ==> p <= next <= cells.len(),
    decreases depth, 2int, 0int,
{
    let mut items: Vec<Expr> = Vec::new();
    assert(trees(items@) =~= Seq::<Tree>::empty());
    let mut q: usize = p;
    let mut far = Frontier::none();
    loop
        invariant
            p <= q <= cells.len(),
            entries(cells@, q as int, depth as nat, trees(items@), far@) == entries(
                cells@,
                p as int,
                depth as nat,
                Seq::<Tree>::empty(),
                far_none(),
            ),
        decreases cells.len() - q,
    {
        let r = parse_entry(cells, q, depth);
        let far1 = far.join(r.far);
        match r.parsed {
            Parsed::Hit(value, next) => {
                assert(trees(items@.push(value)) =~= trees(items@).push(value@));
                items.push(value);
                q = next;
                far = far1;
            },
            Parsed::Miss => {
                if items.len() > 0 {
                    return Outcome { parsed: Parsed::Hit(items, q), far: far1 };
                } else {
                    return Outcome { parsed: Parsed::Miss, far: far1 };
                }
            },
            Parsed::Deep(at) => {
                return too_deep(at);
            },
        }
    }
}

/// Reads one [`entry`] of an object literal at `p`.
fn parse_entry(cells: &[Cell], p: usize, depth: usize) -> (r: Outcome<Expr>)
    requires
        p <= cells.len(),
    ensures
        tree_step(r) == entry(cells@, p as int, depth as nat),
        r.lands(p as int, cells.len() as int),
    decreases depth, 1int, 0int,
{
    let start: usize = skip_blank(cells, p);
    let q: usize = name_end(cells, start);
    if q == start {
        return Outcome { parsed: Parsed::Miss, far: Frontier::at(start, Token::NameChar) };
    }
    let q1: usize = skip_blank(cells, q);
    if !symbol_at(cells, q1, ':') {
        return Outcome {
            parsed: Parsed::Miss,
            far: Frontier::at(q, Token::NameChar).join(Frontier::at(q1, Token::Colon)),
        };
    }
    let v = parse_nested(cells, q1 + 1, depth);
    let far = Frontier::at(q, Token::NameChar).join(v.far);
    match v.parsed {
        Parsed::Hit(value, next) => {
            let key = take_text(cells, start, q);
            Outcome {
                parsed: Parsed::Hit(Expr::KeyValue { key, value: Box::new(value) }, next),
                far,
            }
        },
        Parsed::Miss => Outcome { parsed: Parsed::Miss, far },
        Parsed::Deep(at) => too_deep(at),
    }
}

/// Reads a [`sum`] at `p`.
fn parse_sum(cells: &[Cell], p: usize, depth: usize) -> (r: Outcome<Expr>)
    requires
        p <= cells.len(),
    ensures
        tree_step(r) == sum(cells@, p as int, depth as nat),
        r.lands(p as int, cells.len() as int),
    decreases depth, 8int, 0int,
{
    let first = parse_product(cells, p, depth);
    match first.parsed {
        Parsed::Miss => Outcome { parsed: Parsed::Miss, far: first.far },
        Parsed::Deep(at) => too_deep(at),
        Parsed::Hit(value, next) => {
            let mut left = value;
            let mut q: usize = next;
            let mut far = first.far;
            loop
                invariant
                    p < q <= cells.len(),
                    sum_tail(cells@, q as int, depth as nat, left@, far@) == sum(
                        cells@,
                        p as int,
                        depth as nat,
                    ),
                decreases cells.len() - q,
            {
                let q1: usize = skip_blank(cells, q);
                let plus = symbol_at(cells, q1, '+');
                if !plus && !symbol_at(cells, q1, '-') {
                    let here = Frontier::at(q1, Token::Plus).join(Frontier::at(q1, Token::Minus));
                    return Outcome { parsed: Parsed::Hit(left, q), far: far.join(here) };
                }
                let r = parse_product(cells, q1 + 1, depth);
                let far1 = far.join(r.far);
                match r.parsed {
                    Parsed::Hit(value, next) => {
                        left = if plus {
                            Expr::Add(Box::new(left), Box::new(value))
                        } else {
                            Expr::Sub(Box::new(left), Box::new(value))
                        };
                        q = next;
                        far = far1;
                    },
                    Parsed::Miss => {
                        return Outcome { parsed: Parsed::Hit(left, q), far: far1 };
                    },
                    Parsed::Deep(at) => {
                        return too_deep(at);
                    },
                }
            }
        },
    }
}

/// Reads a [`product`] at `p`.
fn parse_product(cells: &[Cell], p: usize, depth: usize) -> (r: Outcome<Expr>)
    requires
        p <= cells.len(),
    ensures
        tree_step(r) == product(cells@, p as int, depth as nat),
        r.lands(p as int, cells.len() as int),
    decreases depth, 6int, 0int,
{
    let first = parse_unary(cells, p, depth);
    match first.parsed {
        Parsed::Miss => Outcome { parsed: Parsed::Miss, far: first.far },
        Parsed::Deep(at) => too_deep(at),
        Parsed::Hit(value, next) => {
            let mut left = value;
            let mut q: usize = next;
            let mut far = first.far;
            loop
                invariant
                    p < q <= cells.len(),
                    product_tail(cells@, q as int, depth as nat, left@, far@) == product(
                        cells@,
                        p as int,
                        depth as nat,
                    ),
                decreases cells.len() - q,
            {
                let q1: usize = skip_blank(cells, q);
                let star = symbol_at(cells, q1, '*');
                if !star && !symbol_at(cells, q1, '/') {
                    let here = Frontier::at(q1, Token::Star).join(Frontier::at(q1, Token::Slash));
                    return Outcome { parsed: Parsed::Hit(left, q), far: far.join(here) };
                }
                let r = parse_unary(cells, q1 + 1, depth);
                let far1 = far.join(r.far);
                match r.parsed {
                    Parsed::Hit(value, next) => {
                        left = if star {
                            Expr::Mul(Box::new(left), Box::new(value))
                        } else {
                            Expr::Div(Box::new(left), Box::new(value))
                        };
                        q = next;
                        far = far1;
                    },
                    Parsed::Miss => {
                        return Outcome { parsed: Parsed::Hit(left, q), far: far1 };
                    },
                    Parsed::Deep(at) => {
                        return too_deep(at);
                    },
                }
            }
        },
    }
}

/// Reads a [`unary`] term at `p`: counts the prefix `-`, reads the atom, and
/// wraps it once for each `-`.
fn parse_unary(cells: &[Cell], p: usize, depth: usize) -> (r: Outcome<Expr>)
    requires
        p <= cells.len(),
    ensures
        tree_step(r) == unary(cells@, p as int, depth as nat),
        r.lands(p as int, cells.len() as int),
    decreases depth, 4int, 0int,
{
    let mut q: usize = p;
    let mut count: usize = 0;
    loop
        invariant
            p <= q <= cells.len(),
            p + count <= q,
            minus_count(cells@, q as int) + count == minus_count(cells@, p as int),
            minus_end(cells@, q as int) == minus_end(cells@, p as int),
        ensures
            minus_count(cells@, q as int) == 0,
            minus_end(cells@, q as int) == q,
        decreases cells.len() - q,
    {
        let start: usize = skip_blank(cells, q);
        if symbol_at(cells, start, '-') {
            count += 1;
            q = start + 1;
        } else {
            break ;
        }
    }
    let q1: usize = skip_blank(cells, q);
    let a = parse_atom(cells, q, depth);
    let far = Frontier::at(q1, Token::Minus).join(a.far);
    match a.parsed {
        Parsed::Hit(value, next) => {
            let ghost inner = value@;
            let mut v = value;
            let mut i: usize = 0;
            while i < count
                invariant
                    i <= count,
                    v@ == negated(inner, i as nat),
                decreases count - i,
            {
                v = Expr::Neg(Box::new(v));
                i += 1;
            }
            Outcome { parsed: Parsed::Hit(v, next), far }
        },
        Parsed::Miss => Outcome { parsed: Parsed::Miss, far },
        Parsed::Deep(at) => too_deep(at),
    }
}

/// Reads an [`atom`] at `p`.
fn parse_atom(cells: &[Cell], p: usize, depth: usize) -> (r: Outcome<Expr>)
    requires
        p <= cells.len(),
    ensures
        tree_step(r) == atom(cells@, p as int, depth as nat),
        r.lands(p as int, cells.len() as int),
    decreases depth, 3int, 0int,
{
    let start: usize = skip_blank(cells, p);
    let n: usize = digit_end(cells, start);
    if n > start {
        let digits = take_text(cells, start, n);
        let next: usize = skip_blank(cells, n);
        return Outcome {
            parsed: Parsed::Hit(Expr::Num(digits), next),
            far: Frontier::at(n, Token::Digit),
        };
    }
    if !symbol_at(cells, start, '(') {
        return Outcome {
            parsed: Parsed::Miss,
            far: Frontier::at(start, Token::Digit).join(Frontier::at(start, Token::LeftParen)),
        };
    }
    let e = parse_nested(cells, start + 1, depth);
    let far = Frontier::at(start, Token::Digit).join(e.far);
    match e.parsed {
        Parsed::Hit(value, next) => {
            if symbol_at(cells, next, ')') {
                let q: usize = skip_blank(cells, next + 1);
                Outcome { parsed: Parsed::Hit(value, q), far }
            } else {
                Outcome {
                    parsed: Parsed::Miss,
                    far: far.join(Frontier::at(next, Token::RightParen)),
                }
            }
        },
        Parsed::Miss => Outcome { parsed: Parsed::Miss, far },
        Parsed::Deep(at) => too_deep(at),
    }
}

/// The error points into a text of `len` characters or just behind it, and
/// an unexpected character comes with a token that was expected instead.
pub open spec fn error_within(error: SyntaxError, len: nat) -> bool {
    match error {
        SyntaxError::Unexpected { offset, expected } => offset <= len && expected
            != TokenSet::none(),
        SyntaxError::TooDeep { offset } => offset <= len,
    }
}

/// `r` is what `expected` says: the trees on success, and on failure one
/// error, the fault.
pub open spec fn agrees(r: Result<Vec<Expr>, Vec<SyntaxError>>, expected: Result<Seq<Tree>, Fault>) -> bool {
    match r {
        Ok(items) => expected == Ok::<Seq<Tree>, Fault>(trees(items@)),
        Err(errors) => errors@.len() == 1 && expected == Err::<Seq<Tree>, Fault>(errors@[0]@),
    }
}

/// The one error that reports `far`.
fn unexpected(far: Frontier) -> (errors: Vec<SyntaxError>)
    ensures
        errors@.len() == 1,
        errors@[0]@ == (Fault::Unexpected { at: far@.at, expected: far@.expected }),
{
    let mut errors: Vec<SyntaxError> = Vec::new();
    errors.push(SyntaxError::Unexpected { offset: far.offset, expected: far.expected });
    errors
}

/// Parses classified text as a program, following expressions within
/// expressions `limit` levels deep.
///
/// The result is the expressions of the program in source order, or one
/// error that says why the text is not a program. The descent is recursive:
/// the call stack has to hold `limit` levels.
pub fn parse_cells(cells: &[Cell], limit: usize) -> (r: Result<Vec<Expr>, Vec<SyntaxError>>)
    ensures
        agrees(r, program(cells@, limit as nat)),
        r matches Ok(items) ==> items@.len() > 0 && (truthful(cells@) ==> all_well_formed(
            trees(items@),
        )),
        r matches Err(errors) ==> error_within(errors@[0], cells@.len()),
{
    proof {
        lemma_fault_located(cells@, limit as nat);
        if truthful(cells@) {
            lemma_program_well_formed(cells@, limit as nat);
        }
    }
    let l = parse_list(cells, 0, limit);
    match l.parsed {
        Parsed::Hit(items, next) => {
            if items.len() > 0 && next == cells.len() {
                Ok(items)
            } else if items.len() > 0 {
                Err(unexpected(l.far.join(Frontier::at(next, Token::EndOfInput))))
            } else {
                Err(unexpected(l.far))
            }
        },
        Parsed::Miss => Err(unexpected(l.far)),
        Parsed::Deep(at) => {
            let mut errors: Vec<SyntaxError> = Vec::new();
            errors.push(SyntaxError::TooDeep { offset: at });
            Err(errors)
        },
    }
}

/// Parses `text` as a program, following expressions within expressions
/// [`NESTING_LIMIT`] levels deep.
///
/// What counts as white space and as alphanumeric is Unicode's to say; of the
/// ASCII characters of `text`, white space is the space and U+0009 to U+000D,
/// and alphanumeric are the digits and the letters.
pub fn parse_program(text: &str) -> (r: Result<Vec<Expr>, Vec<SyntaxError>>)
    ensures
        agrees(r, program(classified(text@), NESTING_LIMIT as nat)),
        all_known(text@),
        r matches Ok(items) ==> items@.len() > 0 && all_well_formed(trees(items@)),
        r matches Err(errors) ==> error_within(errors@[0], text@.len()),
{
    let cells = classify(text);
    parse_cells(cells.as_slice(), NESTING_LIMIT)
}

} // verus!
