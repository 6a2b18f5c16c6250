use lox::environment::Environment;
use lox::token::Literal;

fn text(value: &str) -> Literal {
    Literal::Str(value.to_string())
}

#[test]
fn fresh_environment_is_empty() {
    let mut environment = Environment::new();
    assert_eq!(environment.nesting(), 0);
    assert_eq!(environment.get("a"), None);
    assert_eq!(environment.assign("a".to_string(), Literal::Nil), Err(()));
    assert_eq!(environment.get("a"), None);
}

#[test]
fn define_then_get() {
    let mut environment = Environment::new();
    environment.define("a".to_string(), Some(Literal::Number(3)));
    environment.define("b".to_string(), Some(Literal::Nil));
    environment.define("c".to_string(), None);
    assert_eq!(environment.get("a"), Some(Literal::Number(3)));
    assert_eq!(environment.get("b"), Some(Literal::Nil));
    assert_eq!(environment.get("c"), None);
    environment.define("a".to_string(), Some(text("again")));
    assert_eq!(environment.get("a"), Some(text("again")));
}

#[test]
fn declared_without_value_can_be_assigned() {
    let mut environment = Environment::new();
    environment.define("c".to_string(), None);
    assert_eq!(environment.assign("c".to_string(), Literal::Bool(true)), Ok(()));
    assert_eq!(environment.get("c"), Some(Literal::Bool(true)));
}

#[test]
fn inner_scope_shadows_and_is_dropped() {
    let mut environment = Environment::new();
    environment.define("a".to_string(), Some(Literal::Number(1)));
    environment.push();
    assert_eq!(environment.nesting(), 1);
    assert_eq!(environment.get("a"), Some(Literal::Number(1)));
    environment.define("a".to_string(), Some(Literal::Number(2)));
    environment.define("b".to_string(), Some(Literal::Number(5)));
    assert_eq!(environment.get("a"), Some(Literal::Number(2)));
    environment.pop();
    assert_eq!(environment.nesting(), 0);
    assert_eq!(environment.get("a"), Some(Literal::Number(1)));
    assert_eq!(environment.get("b"), None);
}

#[test]
fn assign_changes_the_nearest_declaration() {
    let mut environment = Environment::new();
    environment.define("a".to_string(), Some(Literal::Number(1)));
    environment.define("b".to_string(), Some(Literal::Number(1)));
    environment.push();
    environment.define("a".to_string(), Some(Literal::Number(2)));
    environment.push();
    assert_eq!(environment.assign("a".to_string(), Literal::Number(3)), Ok(()));
    assert_eq!(environment.assign("b".to_string(), Literal::Number(4)), Ok(()));
    assert_eq!(environment.assign("c".to_string(), Literal::Number(5)), Err(()));
    assert_eq!(environment.get("a"), Some(Literal::Number(3)));
    environment.pop();
    assert_eq!(environment.get("a"), Some(Literal::Number(3)));
    environment.pop();
    assert_eq!(environment.get("a"), Some(Literal::Number(1)));
    assert_eq!(environment.get("b"), Some(Literal::Number(4)));
    assert_eq!(environment.get("c"), None);
}

#[test]
fn top_level_is_never_popped() {
    let mut environment = Environment::new();
    environment.define("a".to_string(), Some(Literal::Nil));
    environment.pop();
    environment.pop();
    assert_eq!(environment.nesting(), 0);
    assert_eq!(environment.get("a"), Some(Literal::Nil));
    environment.define("b".to_string(), Some(Literal::Nil));
    assert_eq!(environment.get("b"), Some(Literal::Nil));
}

#[test]
fn unwind_leaves_the_scopes_above() {
    let mut environment = Environment::new();
    environment.define("a".to_string(), Some(Literal::Number(0)));
    environment.push();
    environment.define("b".to_string(), Some(Literal::Number(1)));
    environment.push();
    environment.define("c".to_string(), Some(Literal::Number(2)));
    environment.push();
    environment.unwind(5);
    assert_eq!(environment.nesting(), 3);
    environment.unwind(3);
    assert_eq!(environment.nesting(), 3);
    environment.unwind(1);
    assert_eq!(environment.nesting(), 1);
    assert_eq!(environment.get("b"), Some(Literal::Number(1)));
    assert_eq!(environment.get("c"), None);
    environment.unwind(0);
    assert_eq!(environment.nesting(), 0);
    assert_eq!(environment.get("a"), Some(Literal::Number(0)));
    assert_eq!(environment.get("b"), None);
}
