//! The term representation: variables, applications, abstractions and the
//! transient pending-substitution marker, together with the spec-level model
//! (settledness, free variables, canonical rendering) and the constructors.

use vstd::prelude::*;

verus! {

/// A lambda-calculus term. `Substitution` is a transient marker meaning
/// "substitute `var` by `subs` inside `term`"; it exists only mid-reduction
/// and is never part of parser output or of a final result.
#[derive(Debug)]
pub enum Node {
    Application { left: Box<Node>, right: Box<Node> },
    Lambda { var: char, term: Box<Node> },
    Substitution { var: char, subs: Box<Node>, term: Box<Node> },
    Var(char),
}

/// A term is settled when it contains no pending-substitution marker.
pub open spec fn settled(t: Node) -> bool
    decreases t,
{
    match t {
        Node::Var(_) => true,
        Node::Application { left, right } => settled(*left) && settled(*right),
        Node::Lambda { var: _, term } => settled(*term),
        Node::Substitution { .. } => false,
    }
}

/// The free variables of a settled term: a variable is free when it has an
/// occurrence not enclosed by an abstraction binding the same symbol.
pub open spec fn free_set(t: Node) -> Set<char>
    decreases t,
{
    match t {
        Node::Var(c) => set![c],
        Node::Application { left, right } => free_set(*left).union(free_set(*right)),
        Node::Lambda { var, term } => free_set(*term).remove(var),
        Node::Substitution { .. } => Set::empty(),
    }
}

/// The canonical rendering: a variable is its symbol, an abstraction is
/// `(^v.body)`, an application is `(` left right `)` (fully parenthesized,
/// so distinct terms never share a rendering), and a pending marker is
/// `([subs/var]term)`.
pub open spec fn render_of(t: Node) -> Seq<char>
    decreases t,
{
    match t {
        Node::Var(c) => seq![c],
        Node::Application { left, right } => seq!['('] + render_of(*left) + render_of(*right)
            + seq![')'],
        Node::Lambda { var, term } => seq!['(', '^', var, '.'] + render_of(*term) + seq![')'],
        Node::Substitution { var, subs, term } => seq!['(', '['] + render_of(*subs)
            + seq!['/', var, ']'] + render_of(*term) + seq![')'],
    }
}

/// Relies on `String`'s `FromIterator<char>`: collecting characters yields
/// the string holding exactly those characters, in order.
#[verifier::external_body]
pub(crate) fn chars_to_string(v: Vec<char>) -> (r: String)
    ensures
        r@ == v@,
{
    String::from_iter(v)
}

impl Clone for Node {
    /// A deep copy; equal to the original term.
    fn clone(&self) -> (res: Self)
        ensures
            res == *self,
        decreases *self,
    {
        match self {
            Node::Var(c) => Node::Var(*c),
            Node::Application { left, right } => Node::Application {
                left: Box::new((&**left).clone()),
                right: Box::new((&**right).clone()),
            },
            Node::Lambda { var, term } => Node::Lambda {
                var: *var,
                term: Box::new((&**term).clone()),
            },
            Node::Substitution { var, subs, term } => Node::Substitution {
                var: *var,
                subs: Box::new((&**subs).clone()),
                term: Box::new((&**term).clone()),
            },
        }
    }
}

impl Node {
    /// Builds the application of `lhs` to `rhs`.
    pub fn make_application(lhs: Self, rhs: Self) -> (r: Self)
        ensures
            r == (Node::Application { left: Box::new(lhs), right: Box::new(rhs) }),
    {
        Node::Application { left: Box::new(lhs), right: Box::new(rhs) }
    }

    /// Builds an abstraction; the binder must be a bare variable.
    pub fn make_lambda(var: Self, term: Self) -> (r: Self)
        requires
            var is Var,
        ensures
            r == (Node::Lambda { var: var->Var_0, term: Box::new(term) }),
    {
        match var {
            Node::Var(c) => Node::Lambda { var: c, term: Box::new(term) },
            _ => vstd::pervasive::unreached(),
        }
    }

    /// Builds a variable term.
    pub fn make_var(var: char) -> (r: Self)
        ensures
            r == Node::Var(var),
    {
        Node::Var(var)
    }

    /// The canonical rendering, as a vector of characters.
    pub fn render_chars(&self) -> (r: Vec<char>)
        ensures
            r@ == render_of(*self),
        decreases *self,
    {
        match self {
            Node::Var(c) => {
                let mut v: Vec<char> = Vec::new();
                v.push(*c);
                v
            },
            Node::Application { left, right } => {
                let mut v: Vec<char> = Vec::new();
                v.push('(');
                let mut l = left.render_chars();
                v.append(&mut l);
                let mut rr = right.render_chars();
                v.append(&mut rr);
                v.push(')');
                proof {
                    assert(v@ =~= render_of(*self));
                }
                v
            },
            Node::Lambda { var, term } => {
                let mut v: Vec<char> = Vec::new();
                v.push('(');
                v.push('^');
                v.push(*var);
                v.push('.');
                let mut b = term.render_chars();
                v.append(&mut b);
                v.push(')');
                proof {
                    assert(v@ =~= render_of(*self));
                }
                v
            },
            Node::Substitution { var, subs, term } => {
                let mut v: Vec<char> = Vec::new();
                v.push('(');
                v.push('[');
                let mut s = subs.render_chars();
                v.append(&mut s);
                v.push('/');
                v.push(*var);
                v.push(']');
                let mut b = term.render_chars();
                v.append(&mut b);
                v.push(')');
                proof {
                    assert(v@ =~= render_of(*self));
                }
                v
            },
        }
    }

    /// The canonical rendering of the term.
    pub fn render(&self) -> (r: String)
        ensures
            r@ == render_of(*self),
    {
        chars_to_string(self.render_chars())
    }
}

} // verus!
