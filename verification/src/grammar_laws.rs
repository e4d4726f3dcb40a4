//! What holds of everything the grammar reads.
use vstd::prelude::*;
use crate::ast::Tree;
use crate::glyph::{alphanumeric, truthful, Cell};
use crate::token::{Token, TokenSet};
use crate::grammar::{
    assignment, at_symbol, atom, blank_run, block, digit_run, entries, entry, expression, far_none, is_digit,
    is_name_char, join, list, list_tail, minus_count, minus_end, name_run, negated, nested,
    object_literal, product, product_tail, program, sep_end, sep_far, sum, sum_tail,
    text_between, unary, far_at, Far, Fault, Found, Step,
};

verus! {

/// A name: one or more characters, each alphanumeric, `-` or `_`.
pub open spec fn name_like(name: Seq<char>) -> bool {
    &&& name.len() > 0
    &&& forall|i: int|
        0 <= i < name.len() ==> alphanumeric(#[trigger] name[i]) || name[i] == '-' || name[i]
            == '_'
}

/// An integer literal: one or more decimal digits.
pub open spec fn digits_like(digits: Seq<char>) -> bool {
    &&& digits.len() > 0
    &&& forall|i: int| 0 <= i < digits.len() ==> '0' <= #[trigger] digits[i] <= '9'
}

/// The shape of every expression that the grammar builds: names are names,
/// literals are digits, a key-value pair occurs as an entry of an object
/// literal and nowhere else, an object literal has one entry at least, and no
/// call, binding or function definition occurs.
pub open spec fn well_formed(t: Tree) -> bool
    decreases t,
{
    match t {
        Tree::Ident(name) => name_like(name),
        Tree::Num(digits) => digits_like(digits),
        Tree::Neg(e) => well_formed(*e),
        Tree::Add(l, r) => well_formed(*l) && well_formed(*r),
        Tree::Sub(l, r) => well_formed(*l) && well_formed(*r),
        Tree::Mul(l, r) => well_formed(*l) && well_formed(*r),
        Tree::Div(l, r) => well_formed(*l) && well_formed(*r),
        Tree::Call(_, _) => false,
        Tree::Let { .. } => false,
        Tree::Fn { .. } => false,
        Tree::Assign { name, value } => name_like(name) && well_formed(*value),
        Tree::Block(items) => forall|i: int|
            0 <= i < items.len() ==> well_formed(#[trigger] items[i]),
        Tree::KeyValue { .. } => false,
        Tree::ObjectLiteral { key_values } => {
            &&& key_values.len() > 0
            &&& forall|i: int|
                0 <= i < key_values.len() ==> match #[trigger] key_values[i] {
                    Tree::KeyValue { key, value } => name_like(key) && well_formed(*value),
                    _ => false,
                }
        },
    }
}

/// The shape of every entry that the grammar builds: a key-value pair of a
/// name and a well-formed expression.
pub open spec fn entry_like(t: Tree) -> bool {
    match t {
        Tree::KeyValue { key, value } => name_like(key) && well_formed(*value),
        _ => false,
    }
}

/// All of `items` are well formed.
pub open spec fn all_well_formed(items: Seq<Tree>) -> bool {
    forall|i: int| 0 <= i < items.len() ==> well_formed(#[trigger] items[i])
}

/// All of `items` are entries.
pub open spec fn all_entries(items: Seq<Tree>) -> bool {
    forall|i: int| 0 <= i < items.len() ==> entry_like(#[trigger] items[i])
}

/// A report names a token.
#[verifier::opaque]
pub open spec fn named(far: Far) -> bool {
    far.expected != TokenSet::none()
}

/// A report points into the text or just behind it, and names a token unless
/// nothing was looked for at all.
#[verifier::opaque]
pub open spec fn reported(s: Seq<Cell>, far: Far) -> bool {
    0 <= far.at <= s.len() && (named(far) || far == far_none())
}

/// What comes with every answer of a production: its report points into the
/// text, a miss names a token that was missing, and an expression that is too
/// deep starts within the text.
pub open spec fn located<T>(s: Seq<Cell>, r: Step<T>) -> bool {
    &&& reported(s, r.far)
    &&& r.found is Miss ==> named(r.far)
    &&& r.found matches Found::Deep { at } ==> 0 <= at <= s.len()
}

/// A hit of a production started at `p` stops beyond `p` and within the
/// text, and what it reads from truthful cells is well formed.
pub open spec fn sound(s: Seq<Cell>, p: int, r: Step<Tree>) -> bool {
    &&& located(s, r)
    &&& r.found matches Found::Hit { value, next } ==> p < next <= s.len() && (truthful(s)
        ==> well_formed(value))
}

/// A hit of the rest of a chain of operators, taken up at `q`, stops at or
/// beyond `q` and within the text, and what it reads from truthful cells is
/// well formed.
pub open spec fn sound_tail(s: Seq<Cell>, q: int, r: Step<Tree>) -> bool {
    &&& located(s, r)
    &&& r.found matches Found::Hit { value, next } ==> q <= next <= s.len() && (truthful(s)
        ==> well_formed(value))
}

/// A hit of an entry started at `p` stops beyond `p` and within the text, and
/// what it reads from truthful cells is an entry.
pub open spec fn sound_entry(s: Seq<Cell>, p: int, r: Step<Tree>) -> bool {
    &&& located(s, r)
    &&& r.found matches Found::Hit { value, next } ==> p < next <= s.len() && (truthful(s)
        ==> entry_like(value))
}

/// A hit of the entries of an object literal, taken up at `p`, stops at or
/// beyond `p` and within the text; there is one entry at least, and what it
/// reads from truthful cells are entries.
pub open spec fn sound_entries(s: Seq<Cell>, p: int, r: Step<Seq<Tree>>) -> bool {
    &&& located(s, r)
    &&& r.found matches Found::Hit { value, next } ==> p <= next <= s.len() && value.len() > 0
        && (truthful(s) ==> all_entries(value))
}

/// A hit of a list started at `p` stops at or beyond `p` and within the
/// text, and what it reads from truthful cells is well formed.
pub open spec fn sound_list(s: Seq<Cell>, p: int, r: Step<Seq<Tree>>) -> bool {
    &&& located(s, r)
    &&& r.found matches Found::Hit { value, next } ==> p <= next <= s.len() && (truthful(s)
        ==> all_well_formed(value))
}

proof fn lemma_blank_run(s: Seq<Cell>, p: int)
    requires
        0 <= p <= s.len(),
    ensures
        p + blank_run(s, p) <= s.len(),
    decreases s.len() - p,
{
    if p < s.len() && s[p].blank {
        lemma_blank_run(s, p + 1);
    }
}

proof fn lemma_name_run(s: Seq<Cell>, p: int)
    requires
        0 <= p <= s.len(),
    ensures
        p + name_run(s, p) <= s.len(),
        forall|j: int| p <= j < p + name_run(s, p) ==> is_name_char(#[trigger] s[j]),
    decreases s.len() - p,
{
    if p < s.len() && is_name_char(s[p]) {
        lemma_name_run(s, p + 1);
    }
}

proof fn lemma_digit_run(s: Seq<Cell>, p: int)
    requires
        0 <= p <= s.len(),
    ensures
        p + digit_run(s, p) <= s.len(),
        forall|j: int| p <= j < p + digit_run(s, p) ==> is_digit(#[trigger] s[j]),
    decreases s.len() - p,
{
    if p < s.len() && is_digit(s[p]) {
        lemma_digit_run(s, p + 1);
    }
}

proof fn lemma_minus_end(s: Seq<Cell>, p: int)
    requires
        0 <= p <= s.len(),
    ensures
        p <= minus_end(s, p) <= s.len(),
    decreases s.len() - p,
{
    lemma_blank_run(s, p);
    let start = p + blank_run(s, p);
    if start < s.len() && s[start].ch == '-' {
        lemma_minus_end(s, start + 1);
    }
}

/// Reports stay reports when joined, and a join names a token where either
/// side does.
proof fn lemma_reports(s: Seq<Cell>)
    ensures
        reported(s, far_none()),
        forall|q: int, t: Token|
            0 <= q <= s.len() ==> reported(s, #[trigger] far_at(q, t)) && named(far_at(q, t)),
        forall|a: Far, b: Far|
            reported(s, a) && reported(s, b) ==> reported(s, #[trigger] join(a, b)) && (named(a)
                || named(b) ==> named(join(a, b))),
{
    reveal(named);
    reveal(reported);
}

/// Runs of white space, of name characters and of digits, and the prefix
/// `-`, all end within the text.
proof fn lemma_runs(s: Seq<Cell>)
    ensures
        reported(s, far_none()),
        forall|q: int, t: Token|
            0 <= q <= s.len() ==> reported(s, #[trigger] far_at(q, t)) && named(far_at(q, t)),
        forall|a: Far, b: Far|
            reported(s, a) && reported(s, b) ==> reported(s, #[trigger] join(a, b)) && (named(a)
                || named(b) ==> named(join(a, b))),
        forall|p: int| 0 <= p <= s.len() ==> p + #[trigger] blank_run(s, p) <= s.len(),
        forall|p: int| 0 <= p <= s.len() ==> p + #[trigger] name_run(s, p) <= s.len(),
        forall|p: int| 0 <= p <= s.len() ==> p + #[trigger] digit_run(s, p) <= s.len(),
        forall|p: int| 0 <= p <= s.len() ==> p <= #[trigger] minus_end(s, p) <= s.len(),
{
    assert forall|p: int| 0 <= p <= s.len() implies p + #[trigger] blank_run(s, p)
        <= s.len() by {
        lemma_blank_run(s, p);
    }
    lemma_reports(s);
    assert forall|p: int| 0 <= p <= s.len() implies p + #[trigger] name_run(s, p) <= s.len() by {
        lemma_name_run(s, p);
    }
    assert forall|p: int| 0 <= p <= s.len() implies p + #[trigger] digit_run(s, p)
        <= s.len() by {
        lemma_digit_run(s, p);
    }
    assert forall|p: int| 0 <= p <= s.len() implies p <= #[trigger] minus_end(s, p)
        <= s.len() by {
        lemma_minus_end(s, p);
    }
}

proof fn lemma_name_text(s: Seq<Cell>, p: int)
    requires
        0 <= p <= s.len(),
        truthful(s),
        name_run(s, p) > 0,
    ensures
        name_like(text_between(s, p, p + name_run(s, p))),
{
    lemma_name_run(s, p);
    let name = text_between(s, p, p + name_run(s, p));
    assert forall|i: int| 0 <= i < name.len() implies alphanumeric(#[trigger] name[i]) || name[i]
        == '-' || name[i] == '_' by {
        assert(is_name_char(s[p + i]));
    }
}

proof fn lemma_digit_text(s: Seq<Cell>, p: int)
    requires
        0 <= p <= s.len(),
        digit_run(s, p) > 0,
    ensures
        digits_like(text_between(s, p, p + digit_run(s, p))),
{
    lemma_digit_run(s, p);
    let digits = text_between(s, p, p + digit_run(s, p));
    assert forall|i: int| 0 <= i < digits.len() implies '0' <= #[trigger] digits[i] <= '9' by {
        assert(is_digit(s[p + i]));
    }
}

proof fn lemma_negated(v: Tree, k: nat)
    requires
        well_formed(v),
    ensures
        well_formed(negated(v, k)),
    decreases k,
{
    if k > 0 {
        lemma_negated(v, (k - 1) as nat);
    }
}

proof fn lemma_nested(s: Seq<Cell>, p: int, depth: nat)
    requires
        0 <= p <= s.len(),
    ensures
        sound(s, p, nested(s, p, depth)),
    decreases depth, 0int, 0int,
{
    lemma_runs(s);
    if depth > 0 {
        lemma_expression(s, p, (depth - 1) as nat);
    }
}

proof fn lemma_expression(s: Seq<Cell>, p: int, depth: nat)
    requires
        0 <= p <= s.len(),
    ensures
        sound(s, p, expression(s, p, depth)),
    decreases depth, 9int, 0int,
{
    lemma_runs(s);
    let start = p + blank_run(s, p);
    lemma_assignment(s, start, depth);
    lemma_block(s, start, depth);
    lemma_object_literal(s, start, depth);
    lemma_sum(s, start, depth);
    if truthful(s) && name_run(s, start) > 0 {
        lemma_name_text(s, start);
    }
}

proof fn lemma_assignment(s: Seq<Cell>, p: int, depth: nat)
    requires
        0 <= p <= s.len(),
    ensures
        sound(s, p, assignment(s, p, depth)),
    decreases depth, 1int, 0int,
{
    lemma_runs(s);
    let q = p + name_run(s, p);
    let q1 = q + blank_run(s, q);
    if name_run(s, p) > 0 && q1 < s.len() {
        lemma_nested(s, q1 + 1, depth);
        if truthful(s) {
            lemma_name_text(s, p);
        }
    }
}

proof fn lemma_block(s: Seq<Cell>, p: int, depth: nat)
    requires
        0 <= p <= s.len(),
    ensures
        sound(s, p, block(s, p, depth)),
    decreases depth, 3int, 0int,
{
    lemma_runs(s);
    if p < s.len() {
        lemma_list(s, p + 1, depth);
    }
}

proof fn lemma_list(s: Seq<Cell>, p: int, depth: nat)
    requires
        0 <= p <= s.len(),
    ensures
        sound_list(s, p, list(s, p, depth)),
        list(s, p, depth).found matches Found::Hit { value, next } ==> value.len() > 0 || named(
            list(s, p, depth).far,
        ),
    decreases depth, 2int, 0int,
{
    lemma_runs(s);
    lemma_nested(s, p, depth);
    let first = nested(s, p, depth);
    if let Found::Hit { value, next } = first.found {
        lemma_list_tail(s, next, depth, seq![value], first.far);
    }
}

proof fn lemma_list_tail(s: Seq<Cell>, q: int, depth: nat, items: Seq<Tree>, far: Far)
    requires
        0 <= q <= s.len(),
        reported(s, far),
        items.len() > 0,
        truthful(s) ==> all_well_formed(items),
    ensures
        sound_list(s, q, list_tail(s, q, depth, items, far)),
        list_tail(s, q, depth, items, far).found matches Found::Hit { value, next }
            ==> value.len() > 0,
    decreases depth, 1int, s.len() - q,
{
    lemma_runs(s);
    let q1 = sep_end(s, q);
    lemma_nested(s, q1, depth);
    let r = nested(s, q1, depth);
    if let Found::Hit { value, next } = r.found {
        if q < next <= s.len() {
            lemma_list_tail(
                s,
                next,
                depth,
                items.push(value),
                join(join(far, sep_far(s, q)), r.far),
            );
        }
    }
}

proof fn lemma_object_literal(s: Seq<Cell>, p: int, depth: nat)
    requires
        0 <= p <= s.len(),
    ensures
        sound(s, p, object_literal(s, p, depth)),
    decreases depth, 3int, 0int,
{
    lemma_runs(s);
    if p < s.len() {
        lemma_entries(s, p + 1, depth, Seq::empty(), far_none());
    }
}

proof fn lemma_entries(s: Seq<Cell>, p: int, depth: nat, items: Seq<Tree>, far: Far)
    requires
        0 <= p <= s.len(),
        reported(s, far),
        truthful(s) ==> all_entries(items),
    ensures
        sound_entries(s, p, entries(s, p, depth, items, far)),
    decreases depth, 2int, s.len() - p,
{
    lemma_runs(s);
    lemma_entry(s, p, depth);
    let r = entry(s, p, depth);
    if let Found::Hit { value, next } = r.found {
        if p < next <= s.len() {
            lemma_entries(s, next, depth, items.push(value), join(far, r.far));
        }
    }
}

proof fn lemma_entry(s: Seq<Cell>, p: int, depth: nat)
    requires
        0 <= p <= s.len(),
    ensures
        sound_entry(s, p, entry(s, p, depth)),
    decreases depth, 1int, 0int,
{
    lemma_runs(s);
    let start = p + blank_run(s, p);
    let q = start + name_run(s, start);
    let q1 = q + blank_run(s, q);
    if name_run(s, start) > 0 && q1 < s.len() {
        lemma_nested(s, q1 + 1, depth);
        if truthful(s) {
            lemma_name_text(s, start);
        }
    }
}

proof fn lemma_sum(s: Seq<Cell>, p: int, depth: nat)
    requires
        0 <= p <= s.len(),
    ensures
        sound(s, p, sum(s, p, depth)),
    decreases depth, 8int, 0int,
{
    lemma_runs(s);
    lemma_product(s, p, depth);
    let first = product(s, p, depth);
    if let Found::Hit { value, next } = first.found {
        lemma_sum_tail(s, next, depth, value, first.far);
    }
}

proof fn lemma_sum_tail(s: Seq<Cell>, q: int, depth: nat, left: Tree, far: Far)
    requires
        0 <= q <= s.len(),
        reported(s, far),
        truthful(s) ==> well_formed(left),
    ensures
        sound_tail(s, q, sum_tail(s, q, depth, left, far)),
    decreases depth, 7int, s.len() - q,
{
    lemma_runs(s);
    let q1 = q + blank_run(s, q);
    if q1 < s.len() {
        lemma_product(s, q1 + 1, depth);
        let r = product(s, q1 + 1, depth);
        if let Found::Hit { value, next } = r.found {
            if q < next <= s.len() {
                lemma_sum_tail(
                    s,
                    next,
                    depth,
                    Tree::Add(Box::new(left), Box::new(value)),
                    join(far, r.far),
                );
                lemma_sum_tail(
                    s,
                    next,
                    depth,
                    Tree::Sub(Box::new(left), Box::new(value)),
                    join(far, r.far),
                );
            }
        }
    }
}

proof fn lemma_product(s: Seq<Cell>, p: int, depth: nat)
    requires
        0 <= p <= s.len(),
    ensures
        sound(s, p, product(s, p, depth)),
    decreases depth, 6int, 0int,
{
    lemma_runs(s);
    lemma_unary(s, p, depth);
    let first = unary(s, p, depth);
    if let Found::Hit { value, next } = first.found {
        lemma_product_tail(s, next, depth, value, first.far);
    }
}

proof fn lemma_product_tail(s: Seq<Cell>, q: int, depth: nat, left: Tree, far: Far)
    requires
        0 <= q <= s.len(),
        reported(s, far),
        truthful(s) ==> well_formed(left),
    ensures
        sound_tail(s, q, product_tail(s, q, depth, left, far)),
    decreases depth, 5int, s.len() - q,
{
    lemma_runs(s);
    let q1 = q + blank_run(s, q);
    if q1 < s.len() {
        lemma_unary(s, q1 + 1, depth);
        let r = unary(s, q1 + 1, depth);
        if let Found::Hit { value, next } = r.found {
            if q < next <= s.len() {
                lemma_product_tail(
                    s,
                    next,
                    depth,
                    Tree::Mul(Box::new(left), Box::new(value)),
                    join(far, r.far),
                );
                lemma_product_tail(
                    s,
                    next,
                    depth,
                    Tree::Div(Box::new(left), Box::new(value)),
                    join(far, r.far),
                );
            }
        }
    }
}

proof fn lemma_unary(s: Seq<Cell>, p: int, depth: nat)
    requires
        0 <= p <= s.len(),
    ensures
        sound(s, p, unary(s, p, depth)),
    decreases depth, 4int, 0int,
{
    lemma_runs(s);
    let q = minus_end(s, p);
    lemma_atom(s, q, depth);
    if let Found::Hit { value, next } = atom(s, q, depth).found {
        if truthful(s) {
            lemma_negated(value, minus_count(s, p));
        }
    }
}

proof fn lemma_atom(s: Seq<Cell>, p: int, depth: nat)
    requires
        0 <= p <= s.len(),
    ensures
        sound(s, p, atom(s, p, depth)),
    decreases depth, 3int, 0int,
{
    lemma_runs(s);
    let start = p + blank_run(s, p);
    if digit_run(s, start) > 0 {
        lemma_digit_text(s, start);
    } else if start < s.len() {
        lemma_nested(s, start + 1, depth);
    }
}

/// Every production that hits stops beyond where it started and within the
/// text, so no list or chain of operators ever ends for want of progress; and
/// what an expression reads from text that is classified truthfully is well
/// formed.
pub proof fn lemma_expression_sound(s: Seq<Cell>, p: int, depth: nat)
    requires
        0 <= p <= s.len(),
    ensures
        sound(s, p, expression(s, p, depth)),
        sound(s, p, nested(s, p, depth)),
{
    lemma_expression(s, p, depth);
    lemma_nested(s, p, depth);
}

/// A fault points into the text or just behind it, and an unexpected
/// character comes with one token at least that was expected in its place.
pub proof fn lemma_fault_located(s: Seq<Cell>, limit: nat)
    ensures
        program(s, limit) matches Err(fault) ==> match fault {
            Fault::Unexpected { at, expected } => 0 <= at <= s.len() && expected
                != TokenSet::none(),
            Fault::TooDeep { at } => 0 <= at <= s.len(),
        },
{
    lemma_runs(s);
    lemma_list(s, 0, limit);
    reveal(named);
    reveal(reported);
}

/// The expressions of a program read from truthfully classified text are
/// well formed, and there is one at least.
pub proof fn lemma_program_well_formed(s: Seq<Cell>, limit: nat)
    requires
        truthful(s),
    ensures
        program(s, limit) matches Ok(items) ==> items.len() > 0 && all_well_formed(items),
{
    lemma_list(s, 0, limit);
}

proof fn lemma_nested_limit(s: Seq<Cell>, p: int, d: nat, e: nat)
    requires
        d <= e,
        !(nested(s, p, d).found is Deep),
    ensures
        nested(s, p, e) == nested(s, p, d),
    decreases d, 0int, 0int,
{
    lemma_expression_limit(s, p, (d - 1) as nat, (e - 1) as nat);
}

proof fn lemma_expression_limit(s: Seq<Cell>, p: int, d: nat, e: nat)
    requires
        d <= e,
        !(expression(s, p, d).found is Deep),
    ensures
        expression(s, p, e) == expression(s, p, d),
    decreases d, 9int, 0int,
{
    let start = p + blank_run(s, p);
    lemma_assignment_limit(s, start, d, e);
    if assignment(s, start, d).found is Miss {
        lemma_block_limit(s, start, d, e);
        if block(s, start, d).found is Miss {
            lemma_object_literal_limit(s, start, d, e);
            if object_literal(s, start, d).found is Miss {
                lemma_sum_limit(s, start, d, e);
            }
        }
    }
}

proof fn lemma_assignment_limit(s: Seq<Cell>, p: int, d: nat, e: nat)
    requires
        d <= e,
        !(assignment(s, p, d).found is Deep),
    ensures
        assignment(s, p, e) == assignment(s, p, d),
    decreases d, 1int, 0int,
{
    let q = p + name_run(s, p);
    let q1 = q + blank_run(s, q);
    if name_run(s, p) > 0 && at_symbol(s, q1, '=') {
        lemma_nested_limit(s, q1 + 1, d, e);
    }
}

proof fn lemma_block_limit(s: Seq<Cell>, p: int, d: nat, e: nat)
    requires
        d <= e,
        !(block(s, p, d).found is Deep),
    ensures
        block(s, p, e) == block(s, p, d),
    decreases d, 3int, 0int,
{
    if at_symbol(s, p, '{') {
        lemma_list_limit(s, p + 1, d, e);
    }
}

proof fn lemma_list_limit(s: Seq<Cell>, p: int, d: nat, e: nat)
    requires
        d <= e,
        !(list(s, p, d).found is Deep),
    ensures
        list(s, p, e) == list(s, p, d),
    decreases d, 2int, 0int,
{
    let first = nested(s, p, d);
    if first.found is Deep {
    } else {
        lemma_nested_limit(s, p, d, e);
        if let Found::Hit { value, next } = first.found {
            lemma_list_tail_limit(s, next, d, e, seq![value], first.far);
        }
    }
}

proof fn lemma_list_tail_limit(s: Seq<Cell>, q: int, d: nat, e: nat, items: Seq<Tree>, far: Far)
    requires
        d <= e,
        !(list_tail(s, q, d, items, far).found is Deep),
    ensures
        list_tail(s, q, e, items, far) == list_tail(s, q, d, items, far),
    decreases d, 1int, s.len() - q,
{
    let q1 = sep_end(s, q);
    let r = nested(s, q1, d);
    if r.found is Deep {
    } else {
        lemma_nested_limit(s, q1, d, e);
        if let Found::Hit { value, next } = r.found {
            if q < next <= s.len() {
                lemma_list_tail_limit(
                    s,
                    next,
                    d,
                    e,
                    items.push(value),
                    join(join(far, sep_far(s, q)), r.far),
                );
            }
        }
    }
}

proof fn lemma_object_literal_limit(s: Seq<Cell>, p: int, d: nat, e: nat)
    requires
        d <= e,
        !(object_literal(s, p, d).found is Deep),
    ensures
        object_literal(s, p, e) == object_literal(s, p, d),
    decreases d, 3int, 0int,
{
    if at_symbol(s, p, '{') {
        lemma_entries_limit(s, p + 1, d, e, Seq::empty(), far_none());
    }
}

proof fn lemma_entries_limit(s: Seq<Cell>, p: int, d: nat, e: nat, items: Seq<Tree>, far: Far)
    requires
        d <= e,
        !(entries(s, p, d, items, far).found is Deep),
    ensures
        entries(s, p, e, items, far) == entries(s, p, d, items, far),
    decreases d, 2int, s.len() - p,
{
    let r = entry(s, p, d);
    if r.found is Deep {
    } else {
        lemma_entry_limit(s, p, d, e);
        if let Found::Hit { value, next } = r.found {
            if p < next <= s.len() {
                lemma_entries_limit(s, next, d, e, items.push(value), join(far, r.far));
            }
        }
    }
}

proof fn lemma_entry_limit(s: Seq<Cell>, p: int, d: nat, e: nat)
    requires
        d <= e,
        !(entry(s, p, d).found is Deep),
    ensures
        entry(s, p, e) == entry(s, p, d),
    decreases d, 1int, 0int,
{
    let start = p + blank_run(s, p);
    let q = start + name_run(s, start);
    let q1 = q + blank_run(s, q);
    if name_run(s, start) > 0 && at_symbol(s, q1, ':') {
        lemma_nested_limit(s, q1 + 1, d, e);
    }
}

proof fn lemma_sum_limit(s: Seq<Cell>, p: int, d: nat, e: nat)
    requires
        d <= e,
        !(sum(s, p, d).found is Deep),
    ensures
        sum(s, p, e) == sum(s, p, d),
    decreases d, 8int, 0int,
{
    let first = product(s, p, d);
    if first.found is Deep {
    } else {
        lemma_product_limit(s, p, d, e);
        if let Found::Hit { value, next } = first.found {
            lemma_sum_tail_limit(s, next, d, e, value, first.far);
        }
    }
}

proof fn lemma_sum_tail_limit(s: Seq<Cell>, q: int, d: nat, e: nat, left: Tree, far: Far)
    requires
        d <= e,
        !(sum_tail(s, q, d, left, far).found is Deep),
    ensures
        sum_tail(s, q, e, left, far) == sum_tail(s, q, d, left, far),
    decreases d, 7int, s.len() - q,
{
    let q1 = q + blank_run(s, q);
    if at_symbol(s, q1, '+') || at_symbol(s, q1, '-') {
        let r = product(s, q1 + 1, d);
        if r.found is Deep {
        } else {
            lemma_product_limit(s, q1 + 1, d, e);
            if let Found::Hit { value, next } = r.found {
                if q < next <= s.len() {
                    let grown = if at_symbol(s, q1, '+') {
                        Tree::Add(Box::new(left), Box::new(value))
                    } else {
                        Tree::Sub(Box::new(left), Box::new(value))
                    };
                    lemma_sum_tail_limit(s, next, d, e, grown, join(far, r.far));
                }
            }
        }
    }
}

proof fn lemma_product_limit(s: Seq<Cell>, p: int, d: nat, e: nat)
    requires
        d <= e,
        !(product(s, p, d).found is Deep),
    ensures
        product(s, p, e) == product(s, p, d),
    decreases d, 6int, 0int,
{
    let first = unary(s, p, d);
    if first.found is Deep {
    } else {
        lemma_unary_limit(s, p, d, e);
        if let Found::Hit { value, next } = first.found {
            lemma_product_tail_limit(s, next, d, e, value, first.far);
        }
    }
}

proof fn lemma_product_tail_limit(s: Seq<Cell>, q: int, d: nat, e: nat, left: Tree, far: Far)
    requires
        d <= e,
        !(product_tail(s, q, d, left, far).found is Deep),
    ensures
        product_tail(s, q, e, left, far) == product_tail(s, q, d, left, far),
    decreases d, 5int, s.len() - q,
{
    let q1 = q + blank_run(s, q);
    if at_symbol(s, q1, '*') || at_symbol(s, q1, '/') {
        let r = unary(s, q1 + 1, d);
        if r.found is Deep {
        } else {
            lemma_unary_limit(s, q1 + 1, d, e);
            if let Found::Hit { value, next } = r.found {
                if q < next <= s.len() {
                    let grown = if at_symbol(s, q1, '*') {
                        Tree::Mul(Box::new(left), Box::new(value))
                    } else {
                        Tree::Div(Box::new(left), Box::new(value))
                    };
                    lemma_product_tail_limit(s, next, d, e, grown, join(far, r.far));
                }
            }
        }
    }
}

proof fn lemma_unary_limit(s: Seq<Cell>, p: int, d: nat, e: nat)
    requires
        d <= e,
        !(unary(s, p, d).found is Deep),
    ensures
        unary(s, p, e) == unary(s, p, d),
    decreases d, 4int, 0int,
{
    lemma_atom_limit(s, minus_end(s, p), d, e);
}

proof fn lemma_atom_limit(s: Seq<Cell>, p: int, d: nat, e: nat)
    requires
        d <= e,
        !(atom(s, p, d).found is Deep),
    ensures
        atom(s, p, e) == atom(s, p, d),
    decreases d, 3int, 0int,
{
    let start = p + blank_run(s, p);
    if digit_run(s, start) == 0 && at_symbol(s, start, '(') {
        lemma_nested_limit(s, start + 1, d, e);
    }
}

/// The nesting limit decides nothing but whether a text is too deep: a text
/// that is not too deep for one limit reads the same under every higher one.
pub proof fn lemma_limit_is_inert(s: Seq<Cell>, limit: nat, higher: nat)
    requires
        limit <= higher,
        !(program(s, limit) matches Err(Fault::TooDeep { .. })),
    ensures
        program(s, higher) == program(s, limit),
{
    lemma_list_limit(s, 0, limit, higher);
}

} // verus!
