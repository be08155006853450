use lambda_eval::except::{Except, Unite};
use lambda_eval::interpreter::Interpreter;
use lambda_eval::Node;

fn var(c: char) -> Node {
    Node::make_var(c)
}

fn lam(binder: char, body: Node) -> Node {
    Node::make_lambda(Node::make_var(binder), body)
}

fn app(left: Node, right: Node) -> Node {
    Node::make_application(left, right)
}

#[test]
fn free_vars_of_a_variable_is_itself() {
    assert_eq!(Interpreter::free_vars(&var('w')), vec!['w']);
}

#[test]
fn free_vars_sees_only_unbound_occurrences() {
    // freeVars((^x.x) y) = {y}
    let term = app(lam('x', var('x')), var('y'));
    assert_eq!(Interpreter::free_vars(&term), vec!['y']);
}

#[test]
fn free_vars_ignores_an_unused_binder() {
    // freeVars(^x.y) = {y}: the binder is removed, never added.
    let term = lam('x', var('y'));
    assert_eq!(Interpreter::free_vars(&term), vec!['y']);

    // freeVars(^x.(^y.y)) = {}
    let closed = lam('x', lam('y', var('y')));
    assert_eq!(Interpreter::free_vars(&closed), Vec::<char>::new());
}

#[test]
fn free_vars_unions_application_sides() {
    // freeVars((x y) (^y.(y z))) = {x, y, z}, each symbol once.
    let term = app(app(var('x'), var('y')), lam('y', app(var('y'), var('z'))));
    let mut fv = Interpreter::free_vars(&term);
    fv.sort();
    assert_eq!(fv, vec!['x', 'y', 'z']);
}

#[test]
fn except_removes_the_other_elements() {
    let left = vec!['a', 'b', 'c'];
    let right = vec!['b', 'd'];
    assert_eq!(left.except(&right), vec!['a', 'c']);
    assert_eq!(right.except(&left), vec!['d']);
    assert_eq!(Vec::<char>::new().except(&left), Vec::<char>::new());
    assert_eq!(left.except(&Vec::new()), left);
}

#[test]
fn unite_joins_without_duplicates() {
    let left = vec!['a', 'b'];
    let right = vec!['b', 'c'];
    assert_eq!(left.unite(&right), vec!['a', 'b', 'c']);
    assert_eq!(Vec::<char>::new().unite(&right), right);
    assert_eq!(vec!['a', 'a', 'b'].unite(&Vec::new()), vec!['a', 'b']);
}

#[test]
fn rendering_is_fully_parenthesized() {
    assert_eq!(var('a').render(), "a");
    assert_eq!(app(var('a'), var('b')).render(), "(ab)");
    assert_eq!(app(app(var('a'), var('b')), var('c')).render(), "((ab)c)");
    assert_eq!(app(var('a'), app(var('b'), var('c'))).render(), "(a(bc))");
    assert_eq!(lam('x', app(var('x'), var('y'))).render(), "(^x.(xy))");
}

#[test]
fn rendering_shows_pending_markers() {
    let marker = Node::Substitution {
        var: 'x',
        subs: Box::new(var('a')),
        term: Box::new(var('x')),
    };
    assert_eq!(marker.render(), "([a/x]x)");
    assert!(Interpreter::find_substitution(&marker));
}

#[test]
fn clone_is_a_deep_copy() {
    let term = app(lam('x', app(var('x'), var('y'))), var('z'));
    let copy = term.clone();
    assert_eq!(copy.render(), term.render());
}

#[test]
fn the_marker_string_is_no_term_rendering() {
    // "loop" renders no term: a variable is one character and every other
    // rendering opens with a parenthesis.
    let looks_like_loop = app(app(app(var('l'), var('o')), var('o')), var('p'));
    assert_eq!(looks_like_loop.render(), "(((lo)o)p)");
    assert_ne!(looks_like_loop.render(), "loop");
}
