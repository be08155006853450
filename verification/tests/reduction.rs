use lambda_eval::interpreter::{EvalFault, Interpreter};
use lambda_eval::Node;

fn var(c: char) -> Node {
    Node::make_var(c)
}

fn lam(binder: char, body: Node) -> Node {
    Node::make_lambda(Node::make_var(binder), body)
}

fn app(left: Node, right: Node) -> Node {
    Node::make_application(left, right)
}

#[test]
fn rule_one_substitutes_the_variable() {
    // (^x.x) a  →  a
    let term = app(lam('x', var('x')), var('a'));
    assert_eq!(Interpreter::interpret(term), Ok("a".to_string()));
}

#[test]
fn rule_two_leaves_other_variables() {
    // (^x.y) a  →  y
    let term = app(lam('x', var('y')), var('a'));
    assert_eq!(Interpreter::interpret(term), Ok("y".to_string()));
}

#[test]
fn rule_three_pushes_into_both_sides() {
    // (^x.(x x)) a  →  (aa)
    let term = app(lam('x', app(var('x'), var('x'))), var('a'));
    assert_eq!(Interpreter::interpret(term), Ok("(aa)".to_string()));
}

#[test]
fn rule_four_binder_shadows() {
    // (^x.(^x.x)) a  →  (^x.x)
    let term = app(lam('x', lam('x', var('x'))), var('a'));
    assert_eq!(Interpreter::interpret(term), Ok("(^x.x)".to_string()));
}

#[test]
fn rule_five_vacuous_under_binder() {
    // (^x.(^y.z)) a  →  (^y.z)
    let term = app(lam('x', lam('y', var('z'))), var('a'));
    assert_eq!(Interpreter::interpret(term), Ok("(^y.z)".to_string()));
}

#[test]
fn rule_six_pushes_under_binder() {
    // (^x.(^y.x)) z  →  (^y.z)
    let term = app(lam('x', lam('y', var('x'))), var('z'));
    assert_eq!(Interpreter::interpret(term), Ok("(^y.z)".to_string()));
}

#[test]
fn capture_is_avoided_by_alpha_renaming() {
    // (^x.(^y.x)) y: the naive result (^y.y) would capture the free y;
    // the inner binder must be renamed to the first fresh symbol, a.
    let term = app(lam('x', lam('y', var('x'))), var('y'));
    let result = Interpreter::interpret(term).unwrap();
    assert_ne!(result, "(^y.y)");
    assert_eq!(result, "(^a.y)");
}

#[test]
fn leftmost_outermost_contracts_the_outer_redex_first() {
    // (^x.x) ((^y.y) z): the outer redex fires first, giving the
    // intermediate term (^y.y) z, which then reduces to z.
    let term = app(lam('x', var('x')), app(lam('y', var('y')), var('z')));

    // Step through the engine by hand: prepare the outer redex, then drain.
    let mut stepped = Interpreter::prepare(term);
    while Interpreter::find_substitution(&stepped) {
        stepped = Interpreter::substitute(stepped).unwrap();
    }
    assert_eq!(stepped.render(), "((^y.y)z)");
    assert!(Interpreter::find_redex(&stepped));

    // The driver finishes the job.
    assert_eq!(Interpreter::interpret(stepped), Ok("z".to_string()));
}

#[test]
fn self_application_reports_non_termination() {
    // (^x.(x x)) (^x.(x x)) rewrites to itself forever; the cycle guard
    // must stop the run with the marker outcome.
    let omega = || lam('x', app(var('x'), var('x')));
    let term = app(omega(), omega());
    assert_eq!(Interpreter::interpret(term), Ok("loop".to_string()));
}

#[test]
fn normal_forms_come_back_unchanged() {
    // A term already in normal form returns its own rendering.
    assert_eq!(Interpreter::interpret(var('a')), Ok("a".to_string()));
    assert_eq!(
        Interpreter::interpret(lam('x', var('x'))),
        Ok("(^x.x)".to_string())
    );
    let applied = app(var('a'), app(var('b'), var('c')));
    assert_eq!(Interpreter::interpret(applied), Ok("(a(bc))".to_string()));
    let under_binder = lam('f', app(var('f'), var('a')));
    assert_eq!(
        Interpreter::interpret(under_binder),
        Ok("(^f.(fa))".to_string())
    );
}

#[test]
fn reduction_happens_under_binders() {
    // ^z.((^x.x) z) is not in normal form; the redex under the binder fires.
    let term = lam('z', app(lam('x', var('x')), var('z')));
    assert_eq!(Interpreter::interpret(term), Ok("(^z.z)".to_string()));
}

#[test]
fn alphabet_exhaustion_is_a_fault() {
    // Build [q/n](^q.body) where body's free variables cover the whole
    // renaming alphabet a..y plus n: the binder q is free in the
    // replacement, n is free in the body, and no fresh symbol is left.
    let mut body = var('n');
    for c in ('a'..='y').rev() {
        body = app(var(c), body);
    }
    let redex = app(lam('n', lam('q', body)), var('q'));
    assert_eq!(
        Interpreter::interpret(redex),
        Err(EvalFault::AlphabetExhausted)
    );
}

#[test]
fn resolve_one_applies_each_rule() {
    // Rule 1: [a/x]x = a
    assert_eq!(
        Interpreter::resolve_one('x', var('a'), var('x'))
            .unwrap()
            .render(),
        "a"
    );
    // Rule 2: [a/x]y = y
    assert_eq!(
        Interpreter::resolve_one('x', var('a'), var('y'))
            .unwrap()
            .render(),
        "y"
    );
    // Rule 3: [a/x](x y) splits into two pending markers.
    let split = Interpreter::resolve_one('x', var('a'), app(var('x'), var('y'))).unwrap();
    assert_eq!(split.render(), "(([a/x]x)([a/x]y))");
    // Rule 4: [a/x](^x.x) is untouched.
    assert_eq!(
        Interpreter::resolve_one('x', var('a'), lam('x', var('x')))
            .unwrap()
            .render(),
        "(^x.x)"
    );
    // Rule 5: [a/x](^y.y) is untouched.
    assert_eq!(
        Interpreter::resolve_one('x', var('a'), lam('y', var('y')))
            .unwrap()
            .render(),
        "(^y.y)"
    );
    // Rule 6: [a/x](^y.x) pushes under the binder.
    assert_eq!(
        Interpreter::resolve_one('x', var('a'), lam('y', var('x')))
            .unwrap()
            .render(),
        "(^y.([a/x]x))"
    );
    // Rule 7: [y/x](^y.x) renames the binder to the fresh a first.
    assert_eq!(
        Interpreter::resolve_one('x', var('y'), lam('y', var('x')))
            .unwrap()
            .render(),
        "(^a.([y/x]([a/y]x)))"
    );
}

#[test]
fn renaming_keeps_reducing_the_renamed_body() {
    // (^x.(^y.(x y))) (y w): the binder y must be renamed to a before the
    // argument, in which y is free, moves under it.
    let term = app(
        lam('x', lam('y', app(var('x'), var('y')))),
        app(var('y'), var('w')),
    );
    assert_eq!(Interpreter::interpret(term), Ok("(^a.((yw)a))".to_string()));
}

#[test]
fn left_redex_fires_before_right_redex() {
    // ((^x.x) a) ((^y.y) b): both sides hold a redex; the left one is
    // contracted first, and the whole term reaches (ab).
    let term = app(
        app(lam('x', var('x')), var('a')),
        app(lam('y', var('y')), var('b')),
    );
    let mut stepped = Interpreter::prepare(term);
    while Interpreter::find_substitution(&stepped) {
        stepped = Interpreter::substitute(stepped).unwrap();
    }
    assert_eq!(stepped.render(), "(a((^y.y)b))");
    assert_eq!(Interpreter::interpret(stepped), Ok("(ab)".to_string()));
}

#[test]
fn prepare_marks_the_redex_in_place() {
    // Preparing (^x.x) a yields the pending marker [a/x]x.
    let term = app(lam('x', var('x')), var('a'));
    let marked = Interpreter::prepare(term);
    assert_eq!(marked.render(), "([a/x]x)");
    assert!(Interpreter::find_substitution(&marked));
}

#[test]
fn find_redex_sees_through_binders() {
    assert!(!Interpreter::find_redex(&var('a')));
    assert!(!Interpreter::find_redex(&lam('x', var('x'))));
    assert!(!Interpreter::find_redex(&app(var('a'), var('b'))));
    let under = lam('z', app(lam('x', var('x')), var('z')));
    assert!(Interpreter::find_redex(&under));
    let outer = app(lam('x', var('x')), var('a'));
    assert!(Interpreter::find_redex(&outer));
}
