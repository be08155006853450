//! The reduction engine: free-variable calculus, leftmost-outermost redex
//! search, the seven-rule capture-avoiding substitution, and the driver with
//! its cycle guard.

use vstd::prelude::*;
use crate::term::{Node, settled, free_set, render_of};
use crate::except::{Except, Unite, contains_char};

verus! {

broadcast use vstd::seq_lib::group_seq_properties;

pub struct Interpreter;

/// The unrecoverable capacity faults of the engine.
#[derive(Debug, Clone, Copy, PartialEq, Eq, Structural)]
pub enum EvalFault {
    /// The alpha-renaming rule found no alphabet symbol free in both the
    /// replacement and the body.
    AlphabetExhausted,
    /// The driver's rewrite counter, a 64-bit machine integer, ran out: the
    /// run took `u64::MAX` rewrite steps without settling or repeating a
    /// rendering. No feasible run reaches this bound.
    StepLimitExceeded,
}

/// A redex is an application whose function position is an abstraction.
/// `has_redex` says whether a settled term holds one anywhere, searching
/// under binders.
pub open spec fn has_redex(t: Node) -> bool
    decreases t,
{
    match t {
        Node::Var(_) => false,
        Node::Application { left, right } => (*left) matches Node::Lambda { .. }
            || has_redex(*left) || has_redex(*right),
        Node::Lambda { var: _, term } => has_redex(*term),
        Node::Substitution { .. } => false,
    }
}

/// A settled term with no redex anywhere is in normal form.
pub open spec fn is_normal(t: Node) -> bool {
    settled(t) && !has_redex(t)
}

/// Rewrites the leftmost-outermost redex into a pending-substitution marker:
/// at an application whose left side is an abstraction, the application itself
/// is the redex (outermost wins); otherwise the left side is searched before
/// the right, and abstraction bodies are searched too.
pub open spec fn prepare_spec(t: Node) -> Node
    decreases t,
{
    match t {
        Node::Application { left, right } => match *left {
            Node::Lambda { var, term } => Node::Substitution { var, subs: right, term },
            _ => {
                if has_redex(*left) {
                    Node::Application { left: Box::new(prepare_spec(*left)), right }
                } else {
                    Node::Application { left, right: Box::new(prepare_spec(*right)) }
                }
            },
        },
        Node::Lambda { var, term } => Node::Lambda { var, term: Box::new(prepare_spec(*term)) },
        _ => t,
    }
}

/// The ordered alphabet that the alpha-renaming rule scans for a fresh binder.
pub open spec fn alphabet() -> Seq<char> {
    seq![
        'a', 'b', 'c', 'd', 'e', 'f', 'g', 'h', 'i', 'j', 'k', 'l', 'm',
        'n', 'o', 'p', 'q', 'r', 's', 't', 'u', 'v', 'w', 'x', 'y',
    ]
}

/// The first alphabet symbol, from position `i` on, outside `avoid`;
/// `None` when the alphabet is exhausted.
pub open spec fn fresh_from(avoid: Set<char>, i: int) -> Option<char>
    decreases alphabet().len() - i,
{
    if i < 0 || i >= alphabet().len() {
        None
    } else if !avoid.contains(alphabet()[i]) {
        Some(alphabet()[i])
    } else {
        fresh_from(avoid, i + 1)
    }
}

/// The fresh binder chosen by the alpha-renaming rule: the first alphabet
/// symbol outside `avoid`.
pub open spec fn fresh_var(avoid: Set<char>) -> Option<char> {
    fresh_from(avoid, 0)
}

/// Whether one resolution step on the marker `[repl/name]body` can be taken:
/// it cannot only when alpha-renaming is needed and the alphabet is exhausted.
pub open spec fn step_ok(name: char, repl: Node, body: Node) -> bool {
    match body {
        Node::Lambda { var: y, term: u } => y == name || !free_set(*u).contains(name)
            || !free_set(repl).contains(y)
            || fresh_var(free_set(repl).union(free_set(*u))) is Some,
        _ => true,
    }
}

/// One resolution step on the marker `[repl/name]body`: the seven-rule
/// capture-avoiding substitution.
pub open spec fn step_spec(name: char, repl: Node, body: Node) -> Node {
    match body {
        // Rule 1 (the variable being substituted) and Rule 2 (another one).
        Node::Var(c) => if c == name {
            repl
        } else {
            Node::Var(c)
        },
        // Rule 3: push the substitution into both sides as new markers.
        Node::Application { left, right } => Node::Application {
            left: Box::new(Node::Substitution { var: name, subs: Box::new(repl), term: left }),
            right: Box::new(Node::Substitution { var: name, subs: Box::new(repl), term: right }),
        },
        Node::Lambda { var: y, term: u } => {
            if y == name {
                // Rule 4: the binder shadows the substituted name.
                Node::Lambda { var: y, term: u }
            } else if !free_set(*u).contains(name) {
                // Rule 5: the substituted name does not occur free in the body.
                Node::Lambda { var: y, term: u }
            } else if !free_set(repl).contains(y) {
                // Rule 6: no capture possible, push under the binder.
                Node::Lambda {
                    var: y,
                    term: Box::new(Node::Substitution { var: name, subs: Box::new(repl), term: u }),
                }
            } else {
                // Rule 7: alpha-rename the binder to a fresh symbol, then
                // continue the original substitution over the renamed body.
                let z = fresh_var(free_set(repl).union(free_set(*u)))->Some_0;
                Node::Lambda {
                    var: z,
                    term: Box::new(Node::Substitution {
                        var: name,
                        subs: Box::new(repl),
                        term: Box::new(Node::Substitution {
                            var: y,
                            subs: Box::new(Node::Var(z)),
                            term: u,
                        }),
                    }),
                }
            }
        },
        Node::Substitution { .. } => body,
    }
}

/// The free variables a term will have once every pending marker is
/// resolved: a marker's are those of its body, minus the substituted name,
/// plus — when that name is free in the body — those of the replacement.
/// On a settled term these are exactly the free variables.
pub open spec fn free_after(t: Node) -> Set<char>
    decreases t,
{
    match t {
        Node::Var(c) => set![c],
        Node::Application { left, right } => free_after(*left).union(free_after(*right)),
        Node::Lambda { var, term } => free_after(*term).remove(var),
        Node::Substitution { var, subs, term } => if free_after(*term).contains(var) {
            free_after(*term).remove(var).union(free_after(*subs))
        } else {
            free_after(*term)
        },
    }
}

/// On a settled term the intended free variables are the free variables.
pub proof fn lemma_free_after_settled(t: Node)
    requires
        settled(t),
    ensures
        free_after(t) == free_set(t),
    decreases t,
{
    match t {
        Node::Var(_) => {},
        Node::Application { left, right } => {
            lemma_free_after_settled(*left);
            lemma_free_after_settled(*right);
        },
        Node::Lambda { var: _, term } => {
            lemma_free_after_settled(*term);
        },
        Node::Substitution { .. } => {},
    }
}

/// Unfolds `free_after` on a variable, for arguments of any shape.
proof fn lemma_var_free(c: char)
    ensures
        free_after(Node::Var(c)) == set![c],
{
}

/// Unfolds `free_after` on an abstraction, for arguments of any shape.
proof fn lemma_lambda_free(v: char, b: Node)
    ensures
        free_after(Node::Lambda { var: v, term: Box::new(b) }) == free_after(b).remove(v),
{
}

/// Unfolds `free_after` on a pending marker, for arguments of any shape.
proof fn lemma_marker_free(x: char, s: Node, b: Node)
    ensures
        free_after(Node::Substitution { var: x, subs: Box::new(s), term: Box::new(b) }) == (
        if free_after(b).contains(x) {
            free_after(b).remove(x).union(free_after(s))
        } else {
            free_after(b)
        }),
{
}

/// The symbol that the renaming scan hands back is outside the avoided set.
proof fn lemma_fresh_avoids(avoid: Set<char>, i: int)
    requires
        fresh_from(avoid, i) is Some,
    ensures
        !avoid.contains(fresh_from(avoid, i)->Some_0),
    decreases alphabet().len() - i,
{
    if 0 <= i < alphabet().len() && avoid.contains(alphabet()[i]) {
        lemma_fresh_avoids(avoid, i + 1);
    }
}

/// Capture avoidance, in general: one resolution step keeps the intended
/// free variables of the marker it resolves. In particular the renaming
/// rule neither lets an enclosing binder capture a variable of the
/// replacement nor loses a free variable of the body.
pub proof fn lemma_step_preserves_free_vars(name: char, repl: Node, body: Node)
    requires
        settled(repl),
        settled(body),
        step_ok(name, repl, body),
    ensures
        free_after(step_spec(name, repl, body)) == free_after(
            Node::Substitution { var: name, subs: Box::new(repl), term: Box::new(body) },
        ),
{
    lemma_free_after_settled(repl);
    let marker = Node::Substitution { var: name, subs: Box::new(repl), term: Box::new(body) };
    match body {
        Node::Var(c) => {
            if c == name {
                assert(free_after(body).contains(name));
                assert(free_after(marker) =~= free_set(repl));
            } else {
                assert(!free_after(body).contains(name));
                assert(free_after(marker) =~= set![c]);
            }
            assert(free_after(step_spec(name, repl, body)) =~= free_after(marker));
        },
        Node::Application { left, right } => {
            lemma_free_after_settled(*left);
            lemma_free_after_settled(*right);
            let result = step_spec(name, repl, body);
            assert(free_after(result) == free_after(
                Node::Substitution { var: name, subs: Box::new(repl), term: left },
            ).union(
                free_after(Node::Substitution { var: name, subs: Box::new(repl), term: right }),
            ));
            assert(free_after(body) == free_set(*left).union(free_set(*right)));
            assert(free_after(result) =~= free_after(marker));
        },
        Node::Lambda { var: y, term: u } => {
            lemma_free_after_settled(*u);
            lemma_free_after_settled(body);
            if y == name || !free_set(*u).contains(name) {
                // Rules 4 and 5: the marker was vacuous.
                assert(step_spec(name, repl, body) == body);
                assert(free_after(body) == free_set(*u).remove(y));
                assert(!free_after(body).contains(name));
                assert(free_after(marker) == free_after(body));
            } else if !free_set(repl).contains(y) {
                // Rule 6: pushing under the binder moves the same sets around,
                // since the binder is not free in the replacement.
                let pushed = Node::Substitution { var: name, subs: Box::new(repl), term: u };
                assert(free_after(pushed) == free_set(*u).remove(name).union(free_set(repl)));
                assert(free_after(step_spec(name, repl, body)) == free_after(pushed).remove(y));
                assert(free_after(marker) == free_after(body).remove(name).union(free_set(repl)));
                assert(free_after(step_spec(name, repl, body)) =~= free_after(marker));
            } else {
                // Rule 7: the fresh symbol is free neither in the replacement
                // nor in the body, so renaming the binder to it changes no
                // free variable.
                let u0 = *u;
                let avoid = free_set(repl).union(free_set(u0));
                lemma_fresh_avoids(avoid, 0);
                let z = fresh_var(avoid)->Some_0;
                assert(!free_set(repl).contains(z) && !free_set(u0).contains(z));
                let inner = Node::Substitution {
                    var: y,
                    subs: Box::new(Node::Var(z)),
                    term: Box::new(u0),
                };
                let outer = Node::Substitution {
                    var: name,
                    subs: Box::new(repl),
                    term: Box::new(inner),
                };
                let result = Node::Lambda { var: z, term: Box::new(outer) };
                assert(step_spec(name, repl, body) == result);
                lemma_var_free(z);
                lemma_marker_free(y, Node::Var(z), u0);
                if free_set(u0).contains(y) {
                    assert(free_after(inner) =~= free_set(u0).remove(y).insert(z));
                } else {
                    assert(free_after(inner) == free_set(u0));
                }
                assert(free_after(inner).contains(name));
                lemma_marker_free(name, repl, inner);
                assert(free_after(outer) == free_after(inner).remove(name).union(free_set(repl)));
                lemma_lambda_free(z, outer);
                assert(free_after(result) == free_after(outer).remove(z));
                assert(free_after(body).contains(name));
                assert(free_after(marker) == free_after(body).remove(name).union(free_set(repl)));
                assert(free_after(result) =~= free_after(marker));
            }
        },
        Node::Substitution { .. } => {},
    }
}

/// Unfolds `free_after` on an application, for arguments of any shape.
proof fn lemma_app_free(l: Node, r: Node)
    ensures
        free_after(Node::Application { left: Box::new(l), right: Box::new(r) }) == free_after(
            l,
        ).union(free_after(r)),
{
}

/// Whether the next resolution step on `t` (at the pending marker that
/// `subst_first_spec` resolves) can be taken.
pub open spec fn subst_first_ok(t: Node) -> bool
    decreases t,
{
    match t {
        Node::Var(_) => true,
        Node::Application { left, right } => if !settled(*left) {
            subst_first_ok(*left)
        } else {
            subst_first_ok(*right)
        },
        Node::Lambda { var: _, term } => subst_first_ok(*term),
        Node::Substitution { var, subs, term } => if !settled(*subs) {
            subst_first_ok(*subs)
        } else if !settled(*term) {
            subst_first_ok(*term)
        } else {
            step_ok(var, *subs, *term)
        },
    }
}

/// Resolves one pending-substitution marker: the search goes left before
/// right and into bodies first, so a marker is resolved only once everything
/// inside it is settled, and the rules' free-variable tests meet only
/// settled operands.
pub open spec fn subst_first_spec(t: Node) -> Node
    decreases t,
{
    match t {
        Node::Var(_) => t,
        Node::Application { left, right } => if !settled(*left) {
            Node::Application { left: Box::new(subst_first_spec(*left)), right }
        } else {
            Node::Application { left, right: Box::new(subst_first_spec(*right)) }
        },
        Node::Lambda { var, term } => Node::Lambda {
            var,
            term: Box::new(subst_first_spec(*term)),
        },
        Node::Substitution { var, subs, term } => if !settled(*subs) {
            Node::Substitution { var, subs: Box::new(subst_first_spec(*subs)), term }
        } else if !settled(*term) {
            Node::Substitution { var, subs, term: Box::new(subst_first_spec(*term)) }
        } else {
            step_spec(var, *subs, *term)
        },
    }
}

/// Capture avoidance, lifted to the whole term: resolving one pending
/// marker anywhere keeps the intended free variables of the term.
pub proof fn lemma_resolution_preserves_free_vars(t: Node)
    requires
        !settled(t),
        subst_first_ok(t),
    ensures
        free_after(subst_first_spec(t)) == free_after(t),
    decreases t,
{
    match t {
        Node::Var(_) => {},
        Node::Application { left, right } => {
            if !settled(*left) {
                lemma_resolution_preserves_free_vars(*left);
                lemma_app_free(subst_first_spec(*left), *right);
            } else {
                lemma_resolution_preserves_free_vars(*right);
                lemma_app_free(*left, subst_first_spec(*right));
            }
        },
        Node::Lambda { var, term } => {
            lemma_resolution_preserves_free_vars(*term);
            lemma_lambda_free(var, subst_first_spec(*term));
        },
        Node::Substitution { var, subs, term } => {
            if !settled(*subs) {
                lemma_resolution_preserves_free_vars(*subs);
                lemma_marker_free(var, subst_first_spec(*subs), *term);
                lemma_marker_free(var, *subs, *term);
            } else if !settled(*term) {
                lemma_resolution_preserves_free_vars(*term);
                lemma_marker_free(var, *subs, subst_first_spec(*term));
                lemma_marker_free(var, *subs, *term);
            } else {
                lemma_step_preserves_free_vars(var, *subs, *term);
            }
        },
    }
}

/// Marking the leftmost-outermost redex never adds a free variable; it can
/// drop those of an argument handed to a binder that does not use it.
pub proof fn lemma_preparation_shrinks_free_vars(t: Node)
    requires
        settled(t),
        has_redex(t),
    ensures
        free_after(prepare_spec(t)).subset_of(free_after(t)),
    decreases t,
{
    lemma_free_after_settled(t);
    match t {
        Node::Var(_) => {},
        Node::Application { left, right } => {
            lemma_free_after_settled(*left);
            lemma_free_after_settled(*right);
            match *left {
                Node::Lambda { var, term } => {
                    lemma_free_after_settled(*term);
                    lemma_marker_free(var, *right, *term);
                },
                _ => {
                    if has_redex(*left) {
                        lemma_preparation_shrinks_free_vars(*left);
                        lemma_app_free(prepare_spec(*left), *right);
                    } else {
                        lemma_preparation_shrinks_free_vars(*right);
                        lemma_app_free(*left, prepare_spec(*right));
                    }
                },
            }
        },
        Node::Lambda { var, term } => {
            lemma_free_after_settled(*term);
            lemma_preparation_shrinks_free_vars(*term);
            lemma_lambda_free(var, prepare_spec(*term));
        },
        Node::Substitution { .. } => {},
    }
}

/// One rewrite step of the driver: drain a pending marker when one exists,
/// otherwise turn the leftmost-outermost redex into a marker.
pub open spec fn micro_step(t: Node) -> Node {
    if settled(t) {
        prepare_spec(t)
    } else {
        subst_first_spec(t)
    }
}

/// Whether the driver can take a rewrite step on `t`: a settled term needs a
/// redex; an unsettled one needs the next resolution not to fault.
pub open spec fn can_step(t: Node) -> bool {
    if settled(t) {
        has_redex(t)
    } else {
        subst_first_ok(t)
    }
}

/// The term after `n` rewrite steps from `root`.
pub open spec fn iterate(root: Node, n: nat) -> Node
    decreases n,
{
    if n == 0 {
        root
    } else {
        micro_step(iterate(root, (n - 1) as nat))
    }
}

/// Whether the first `n` rewrite steps from `root` can all be taken.
pub open spec fn steps_ok(root: Node, n: nat) -> bool
    decreases n,
{
    n == 0 || (steps_ok(root, (n - 1) as nat) && can_step(iterate(root, (n - 1) as nat)))
}

/// Reduction never invents a free variable: however many rewrite steps are
/// taken from a settled term, the intended free variables stay among the
/// original free variables.
pub proof fn lemma_run_free_vars(root: Node, n: nat)
    requires
        settled(root),
        steps_ok(root, n),
    ensures
        free_after(iterate(root, n)).subset_of(free_set(root)),
    decreases n,
{
    lemma_free_after_settled(root);
    if n > 0 {
        lemma_run_free_vars(root, (n - 1) as nat);
        let prev = iterate(root, (n - 1) as nat);
        if settled(prev) {
            lemma_preparation_shrinks_free_vars(prev);
        } else {
            lemma_resolution_preserves_free_vars(prev);
        }
    }
}

/// The renderings of the first `n` rewrite states from `root` are pairwise
/// distinct: the cycle guard has not fired before step `n`.
pub open spec fn distinct_renders(root: Node, n: nat) -> bool {
    forall|i: nat, j: nat|
        i < j < n ==> render_of(iterate(root, i)) != render_of(iterate(root, j))
}

/// The rewrite sequence from `root` repeats a rendering for the first time
/// at step `j`, which shows the same rendering as the earlier step `i`.
pub open spec fn cycles(root: Node, i: nat, j: nat) -> bool {
    i < j && steps_ok(root, j) && distinct_renders(root, j) && render_of(iterate(root, i))
        == render_of(iterate(root, j))
}

/// The run from `root` reaches a normal form rendered as `s` after `n` steps,
/// with no rendering repeated on the way.
pub open spec fn normalized_at(root: Node, n: nat, s: Seq<char>) -> bool {
    steps_ok(root, n) && distinct_renders(root, n) && is_normal(iterate(root, n)) && s
        == render_of(iterate(root, n))
}

/// The run from `root` faults after `n` steps: a resolution is due but the
/// alpha-renaming rule finds no fresh symbol.
pub open spec fn fault_at(root: Node, n: nat) -> bool {
    steps_ok(root, n) && distinct_renders(root, n) && !settled(iterate(root, n))
        && !subst_first_ok(iterate(root, n))
}

/// The distinguished non-termination outcome. No settled term renders as
/// this marker: a variable renders as one character and every other term's
/// rendering opens with a parenthesis.
pub open spec fn non_termination_marker() -> Seq<char> {
    seq!['l', 'o', 'o', 'p']
}

/// The non-termination marker is distinct from the rendering of every term,
/// settled or not.
pub proof fn lemma_marker_distinct(t: Node)
    ensures
        render_of(t) != non_termination_marker(),
{
    match t {
        Node::Var(_) => {
            assert(render_of(t).len() == 1);
        },
        Node::Application { .. } => {
            assert(render_of(t)[0] == '(');
        },
        Node::Lambda { .. } => {
            assert(render_of(t)[0] == '(');
        },
        Node::Substitution { .. } => {
            assert(render_of(t)[0] == '(');
        },
    }
}

impl Interpreter {
    /// The free variables of a settled term, as a duplicate-free vector.
    /// It never faults on a settled term and holds exactly the symbols with
    /// an unbound occurrence.
    pub fn free_vars(root: &Node) -> (r: Vec<char>)
        requires
            settled(*root),
        ensures
            forall|c: char| r@.contains(c) <==> free_set(*root).contains(c),
            r@.no_duplicates(),
        decreases *root,
    {
        match root {
            Node::Application { left, right } => Self::free_vars(left).unite(
                &Self::free_vars(right),
            ),
            Node::Lambda { var, term } => {
                let mut bound: Vec<char> = Vec::new();
                bound.push(*var);
                Self::free_vars(term).except(&bound)
            },
            Node::Var(c) => {
                let mut one: Vec<char> = Vec::new();
                one.push(*c);
                one
            },
            Node::Substitution { .. } => vstd::pervasive::unreached(),
        }
    }

    /// Whether a settled term holds a redex anywhere, searching under binders;
    /// `false` exactly when the term is in full normal form.
    pub fn find_redex(root: &Node) -> (r: bool)
        requires
            settled(*root),
        ensures
            r == has_redex(*root),
        decreases *root,
    {
        match root {
            Node::Application { left, right } => {
                if matches!(&**left, Node::Lambda { .. }) {
                    true
                } else if Self::find_redex(left) {
                    true
                } else {
                    Self::find_redex(right)
                }
            },
            Node::Lambda { var: _, term } => Self::find_redex(term),
            Node::Var(_) => false,
            Node::Substitution { .. } => vstd::pervasive::unreached(),
        }
    }

    /// Rewrites the leftmost-outermost redex of a settled term into a
    /// pending-substitution marker. This is the only way a marker is created.
    pub fn prepare(t: Node) -> (r: Node)
        requires
            settled(t),
            has_redex(t),
        ensures
            r == prepare_spec(t),
        decreases t,
    {
        match t {
            Node::Application { left, right } => {
                match *left {
                    Node::Lambda { var, term } => Node::Substitution { var, subs: right, term },
                    l => {
                        if Self::find_redex(&l) {
                            Node::Application { left: Box::new(Self::prepare(l)), right }
                        } else {
                            Node::Application {
                                left: Box::new(l),
                                right: Box::new(Self::prepare(*right)),
                            }
                        }
                    },
                }
            },
            Node::Lambda { var, term } => Node::Lambda {
                var,
                term: Box::new(Self::prepare(*term)),
            },
            _ => vstd::pervasive::unreached(),
        }
    }

    /// The first alphabet symbol not held by `avoid`, or `None` when the
    /// alphabet is exhausted.
    fn find_fresh(avoid: &Vec<char>) -> (r: Option<char>)
        ensures
            r == fresh_var(avoid@.to_set()),
    {
        let alpha: Vec<char> = vec![
            'a', 'b', 'c', 'd', 'e', 'f', 'g', 'h', 'i', 'j', 'k', 'l', 'm',
            'n', 'o', 'p', 'q', 'r', 's', 't', 'u', 'v', 'w', 'x', 'y',
        ];
        proof {
            assert(alpha@ =~= alphabet());
        }
        let mut i: usize = 0;
        while i < alpha.len()
            invariant
                i <= alpha.len(),
                alpha@ == alphabet(),
                fresh_var(avoid@.to_set()) == fresh_from(avoid@.to_set(), i as int),
            decreases alpha.len() - i,
        {
            if !contains_char(avoid, alpha[i]) {
                return Some(alpha[i]);
            }
            i += 1;
        }
        None
    }

    /// One resolution step of the marker `[repl/name]body`, by the seven-rule
    /// table; `Err` reports the capacity fault of the alpha-renaming rule
    /// when no fresh binder symbol is left.
    pub fn resolve_one(name: char, repl: Node, body: Node) -> (r: Result<Node, EvalFault>)
        requires
            settled(repl),
            settled(body),
        ensures
            step_ok(name, repl, body) ==> r == Result::<Node, EvalFault>::Ok(
                step_spec(name, repl, body),
            ),
            !step_ok(name, repl, body) ==> r == Result::<Node, EvalFault>::Err(
                EvalFault::AlphabetExhausted,
            ),
    {
        match body {
            Node::Var(c) => {
                if c == name {
                    // Rule 1
                    Ok(repl)
                } else {
                    // Rule 2
                    Ok(Node::Var(c))
                }
            },
            Node::Application { left, right } => {
                // Rule 3
                let shared = repl.clone();
                Ok(Node::Application {
                    left: Box::new(Node::Substitution {
                        var: name,
                        subs: Box::new(shared),
                        term: left,
                    }),
                    right: Box::new(Node::Substitution {
                        var: name,
                        subs: Box::new(repl),
                        term: right,
                    }),
                })
            },
            Node::Lambda { var: y, term: u } => {
                if y == name {
                    // Rule 4
                    Ok(Node::Lambda { var: y, term: u })
                } else {
                    let fv_body = Self::free_vars(&u);
                    if !contains_char(&fv_body, name) {
                        // Rule 5
                        Ok(Node::Lambda { var: y, term: u })
                    } else {
                        let fv_repl = Self::free_vars(&repl);
                        if !contains_char(&fv_repl, y) {
                            // Rule 6
                            Ok(Node::Lambda {
                                var: y,
                                term: Box::new(Node::Substitution {
                                    var: name,
                                    subs: Box::new(repl),
                                    term: u,
                                }),
                            })
                        } else {
                            // Rule 7
                            let avoid = fv_repl.unite(&fv_body);
                            proof {
                                assert(avoid@.to_set() =~= free_set(repl).union(free_set(*u)));
                            }
                            match Self::find_fresh(&avoid) {
                                Some(z) => Ok(Node::Lambda {
                                    var: z,
                                    term: Box::new(Node::Substitution {
                                        var: name,
                                        subs: Box::new(repl),
                                        term: Box::new(Node::Substitution {
                                            var: y,
                                            subs: Box::new(Node::Var(z)),
                                            term: u,
                                        }),
                                    }),
                                }),
                                None => Err(EvalFault::AlphabetExhausted),
                            }
                        }
                    }
                }
            },
            Node::Substitution { .. } => vstd::pervasive::unreached(),
        }
    }

    /// Resolves the pending-substitution marker that `subst_first_spec`
    /// points at: markers inside a marker's replacement or body are drained
    /// before the marker itself, left side before right.
    pub fn substitute(t: Node) -> (r: Result<Node, EvalFault>)
        requires
            !settled(t),
        ensures
            subst_first_ok(t) ==> r == Result::<Node, EvalFault>::Ok(subst_first_spec(t)),
            !subst_first_ok(t) ==> r == Result::<Node, EvalFault>::Err(
                EvalFault::AlphabetExhausted,
            ),
        decreases t,
    {
        match t {
            Node::Application { left, right } => {
                if Self::find_substitution(&left) {
                    match Self::substitute(*left) {
                        Ok(l) => Ok(Node::Application { left: Box::new(l), right }),
                        Err(e) => Err(e),
                    }
                } else {
                    match Self::substitute(*right) {
                        Ok(rr) => Ok(Node::Application { left, right: Box::new(rr) }),
                        Err(e) => Err(e),
                    }
                }
            },
            Node::Lambda { var, term } => {
                match Self::substitute(*term) {
                    Ok(b) => Ok(Node::Lambda { var, term: Box::new(b) }),
                    Err(e) => Err(e),
                }
            },
            Node::Substitution { var, subs, term } => {
                if Self::find_substitution(&subs) {
                    match Self::substitute(*subs) {
                        Ok(s) => Ok(Node::Substitution { var, subs: Box::new(s), term }),
                        Err(e) => Err(e),
                    }
                } else if Self::find_substitution(&term) {
                    match Self::substitute(*term) {
                        Ok(b) => Ok(Node::Substitution { var, subs, term: Box::new(b) }),
                        Err(e) => Err(e),
                    }
                } else {
                    Self::resolve_one(var, *subs, *term)
                }
            },
            Node::Var(_) => vstd::pervasive::unreached(),
        }
    }

    /// The literal marker string for the non-termination outcome.
    fn marker_string() -> (r: String)
        ensures
            r@ == non_termination_marker(),
    {
        let mut v: Vec<char> = Vec::new();
        v.push('l');
        v.push('o');
        v.push('o');
        v.push('p');
        proof {
            assert(v@ =~= non_termination_marker());
        }
        crate::term::chars_to_string(v)
    }

    /// Whether the history already holds this rendering.
    fn history_contains(history: &Vec<String>, s: &String) -> (r: bool)
        ensures
            r == exists|i: int| 0 <= i < history@.len() && history@[i]@ == s@,
    {
        let mut k: usize = 0;
        while k < history.len()
            invariant
                k <= history.len(),
                forall|i: int| 0 <= i < k ==> history@[i]@ != s@,
            decreases history.len() - k,
        {
            if history[k] == *s {
                return true;
            }
            k += 1;
        }
        false
    }

    /// Normalizes a settled term under the leftmost-outermost strategy.
    ///
    /// The result is the rendering of the normal form that the rewrite
    /// sequence reaches; the marker string when a rendering repeats (the
    /// non-termination outcome); or a capacity fault, either when the
    /// alpha-renaming rule runs out of symbols or when the 64-bit rewrite
    /// counter does (a bound no feasible run reaches). A term already in
    /// normal form comes back under its own rendering.
    pub fn interpret(root: Node) -> (r: Result<String, EvalFault>)
        requires
            settled(root),
        ensures
            match r {
                Ok(s) => (exists|n: nat| normalized_at(root, n, s@)) || (s@
                    == non_termination_marker() && exists|i: nat, j: nat| cycles(root, i, j)),
                Err(EvalFault::AlphabetExhausted) => exists|n: nat| fault_at(root, n),
                Err(EvalFault::StepLimitExceeded) => steps_ok(root, u64::MAX as nat),
            },
            is_normal(root) ==> (r matches Ok(s) && s@ == render_of(root)),
    {
        let mut term = root;
        let mut history: Vec<String> = Vec::new();
        let mut budget: u64 = u64::MAX;
        let ghost mut steps: nat = 0;

        let mut more = Self::find_redex(&term);
        while more
            invariant
                settled(term),
                term == iterate(root, steps),
                steps_ok(root, steps),
                more == has_redex(term),
                more ==> !is_normal(root),
                is_normal(root) ==> steps == 0,
                steps + budget == u64::MAX,
                history@.len() == steps,
                forall|i: int|
                    0 <= i < steps ==> history@[i]@ == render_of(iterate(root, i as nat)),
                distinct_renders(root, steps),
            decreases budget,
        {
            let current = term.render();
            if Self::history_contains(&history, &current) {
                proof {
                    let i = choose|i: int|
                        0 <= i < history@.len() && history@[i]@ == current@;
                    assert(cycles(root, i as nat, steps));
                }
                return Ok(Self::marker_string());
            }
            if budget == 0 {
                return Err(EvalFault::StepLimitExceeded);
            }
            budget = budget - 1;
            history.push(current);
            proof {
                assert(distinct_renders(root, steps + 1)) by {
                    assert forall|a: nat, b: nat| a < b < steps + 1 implies render_of(
                        iterate(root, a),
                    ) != render_of(iterate(root, b)) by {
                        if b == steps {
                            assert(history@[a as int]@ == render_of(iterate(root, a)));
                        }
                    }
                }
            }
            term = Self::prepare(term);
            proof {
                steps = steps + 1;
            }

            let ghost budget_entry: u64 = budget;
            let mut pending = Self::find_substitution(&term);
            while pending
                invariant
                    term == iterate(root, steps),
                    steps_ok(root, steps),
                    pending == !settled(term),
                    !is_normal(root),
                    budget <= budget_entry,
                    steps + budget == u64::MAX,
                    history@.len() == steps,
                    forall|i: int|
                        0 <= i < steps ==> history@[i]@ == render_of(iterate(root, i as nat)),
                    distinct_renders(root, steps),
                decreases budget,
            {
                let current = term.render();
                if Self::history_contains(&history, &current) {
                    proof {
                        let i = choose|i: int|
                            0 <= i < history@.len() && history@[i]@ == current@;
                        assert(cycles(root, i as nat, steps));
                    }
                    return Ok(Self::marker_string());
                }
                if budget == 0 {
                    return Err(EvalFault::StepLimitExceeded);
                }
                budget = budget - 1;
                history.push(current);
                proof {
                    assert(distinct_renders(root, steps + 1)) by {
                        assert forall|a: nat, b: nat| a < b < steps + 1 implies render_of(
                            iterate(root, a),
                        ) != render_of(iterate(root, b)) by {
                            if b == steps {
                                assert(history@[a as int]@ == render_of(iterate(root, a)));
                            }
                        }
                    }
                }
                match Self::substitute(term) {
                    Ok(next) => {
                        term = next;
                        proof {
                            steps = steps + 1;
                        }
                    },
                    Err(e) => {
                        proof {
                            assert(fault_at(root, steps));
                        }
                        return Err(e);
                    },
                }
                pending = Self::find_substitution(&term);
            }

            more = Self::find_redex(&term);
        }
        proof {
            assert(normalized_at(root, steps, render_of(term)));
        }
        Ok(term.render())
    }

    /// Whether the term still holds a pending-substitution marker anywhere.
    pub fn find_substitution(root: &Node) -> (r: bool)
        ensures
            r == !settled(*root),
        decreases *root,
    {
        match root {
            Node::Substitution { .. } => true,
            Node::Var(_) => false,
            Node::Application { left, right } => {
                if Self::find_substitution(left) {
                    true
                } else {
                    Self::find_substitution(right)
                }
            },
            Node::Lambda { var: _, term } => Self::find_substitution(term),
        }
    }
}

} // verus!

