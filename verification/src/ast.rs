//! The syntax tree and its mathematical model.
use vstd::prelude::*;

verus! {

/// A node of the syntax tree. A parent owns its children; nothing is shared.
#[derive(Debug, PartialEq)]
pub enum Expr {
    /// A bare identifier.
    Ident(String),
    /// A numeric literal, held as its decimal digits in source order.
    Num(String),
    /// Unary negation.
    Neg(Box<Expr>),
    /// Addition.
    Add(Box<Expr>, Box<Expr>),
    /// Subtraction.
    Sub(Box<Expr>, Box<Expr>),
    /// Multiplication.
    Mul(Box<Expr>, Box<Expr>),
    /// Division.
    Div(Box<Expr>, Box<Expr>),
    /// A call of a named function. The grammar has no production for it.
    Call(String, Vec<Expr>),
    /// A binding followed by the expression it scopes over. The grammar has
    /// no production for it.
    Let { name: String, rhs: Box<Expr>, next: Box<Expr> },
    /// A function definition followed by the expression it scopes over. The
    /// grammar has no production for it.
    Fn { name: String, args: Vec<String>, body: Box<Expr>, next: Box<Expr> },
    /// Rebinding of a name.
    Assign { name: String, value: Box<Expr> },
    /// A sequential group, in source order.
    Block(Vec<Expr>),
    /// One entry of an object literal.
    KeyValue { key: String, value: Box<Expr> },
    /// An object literal; every entry is a [`Expr::KeyValue`], in source order.
    ObjectLiteral { key_values: Vec<Expr> },
}

/// What an [`Expr`] is, variant by variant, with strings and vectors replaced
/// by sequences.
pub ghost enum Tree {
    Ident(Seq<char>),
    Num(Seq<char>),
    Neg(Box<Tree>),
    Add(Box<Tree>, Box<Tree>),
    Sub(Box<Tree>, Box<Tree>),
    Mul(Box<Tree>, Box<Tree>),
    Div(Box<Tree>, Box<Tree>),
    Call(Seq<char>, Seq<Tree>),
    Let { name: Seq<char>, rhs: Box<Tree>, next: Box<Tree> },
    Fn { name: Seq<char>, args: Seq<Seq<char>>, body: Box<Tree>, next: Box<Tree> },
    Assign { name: Seq<char>, value: Box<Tree> },
    Block(Seq<Tree>),
    KeyValue { key: Seq<char>, value: Box<Tree> },
    ObjectLiteral { key_values: Seq<Tree> },
}

/// The model of one expression.
pub open spec fn tree_of(e: Expr) -> Tree
    decreases e,
{
    match e {
        Expr::Ident(name) => Tree::Ident(name@),
        Expr::Num(digits) => Tree::Num(digits@),
        Expr::Neg(e) => Tree::Neg(Box::new(tree_of(*e))),
        Expr::Add(l, r) => Tree::Add(Box::new(tree_of(*l)), Box::new(tree_of(*r))),
        Expr::Sub(l, r) => Tree::Sub(Box::new(tree_of(*l)), Box::new(tree_of(*r))),
        Expr::Mul(l, r) => Tree::Mul(Box::new(tree_of(*l)), Box::new(tree_of(*r))),
        Expr::Div(l, r) => Tree::Div(Box::new(tree_of(*l)), Box::new(tree_of(*r))),
        Expr::Call(name, args) => Tree::Call(name@, trees_of(args)),
        Expr::Let { name, rhs, next } => Tree::Let {
            name: name@,
            rhs: Box::new(tree_of(*rhs)),
            next: Box::new(tree_of(*next)),
        },
        Expr::Fn { name, args, body, next } => Tree::Fn {
            name: name@,
            args: Seq::new(args.len() as nat, |i: int| args[i]@),
            body: Box::new(tree_of(*body)),
            next: Box::new(tree_of(*next)),
        },
        Expr::Assign { name, value } => Tree::Assign {
            name: name@,
            value: Box::new(tree_of(*value)),
        },
        Expr::Block(items) => Tree::Block(trees_of(items)),
        Expr::KeyValue { key, value } => Tree::KeyValue {
            key: key@,
            value: Box::new(tree_of(*value)),
        },
        Expr::ObjectLiteral { key_values } => Tree::ObjectLiteral {
            key_values: trees_of(key_values),
        },
    }
}

/// The models of the expressions that a vector holds, in order. (No index
/// lies outside the vector; the branch for one that did only makes the
/// definition well founded.)
pub open spec fn trees_of(items: Vec<Expr>) -> Seq<Tree>
    decreases items,
{
    Seq::new(
        items.len() as nat,
        |i: int|
            if 0 <= i < items.len() {
                tree_of(items[i])
            } else {
                Tree::Block(Seq::empty())
            },
    )
}

impl View for Expr {
    type V = Tree;

    open spec fn view(&self) -> Tree {
        tree_of(*self)
    }
}

/// The models of a sequence of expressions, in order.
pub open spec fn trees(items: Seq<Expr>) -> Seq<Tree> {
    Seq::new(items.len(), |i: int| items[i]@)
}

/// A vector's model is that of the sequence it holds.
pub proof fn lemma_trees_of(items: Vec<Expr>)
    ensures
        trees_of(items) == trees(items@),
{
    assert(trees_of(items) =~= trees(items@));
}

} // verus!
