use rlox::environment::Environment;
use rlox::lox_callable::LoxCallable;
use rlox::lox_function::LoxFunction;
use rlox::native_functions::Clock;
use rlox::object::Object;
use rlox::runtime_error::RuntimeError;
use rlox::stmt::Stmt;
use rlox::token::Token;
use rlox::token_type::TokenType;
use rlox::value::Value;

fn name(text: &str) -> Token {
    Token::new(TokenType::Identifier, text.to_string(), Object::Null, 7)
}

fn number(n: f64) -> Value<'static> {
    Value::Number(n.to_bits())
}

#[test]
fn a_new_environment_has_one_empty_scope() {
    let environment = Environment::new();
    assert_eq!(environment.len(), 1);
    assert_eq!(environment.get(0, &name("x")), None);
}

#[test]
fn define_then_get() {
    let mut environment = Environment::new();
    environment.define(0, "x".to_string(), number(1.0));
    assert_eq!(environment.get(0, &name("x")), Some(&number(1.0)));
    assert_eq!(environment.get(0, &name("y")), None);
}

#[test]
fn define_twice_keeps_the_second_value() {
    let mut environment = Environment::new();
    environment.define(0, "x".to_string(), number(1.0));
    environment.define(0, "x".to_string(), Value::String("two".to_string()));
    assert_eq!(environment.get(0, &name("x")), Some(&Value::String("two".to_string())));
}

#[test]
fn get_walks_the_chain_outwards() {
    let mut environment = Environment::new();
    environment.define(0, "outer".to_string(), number(1.0));
    let middle = environment.enclose(0);
    let inner = environment.enclose(middle);
    assert_eq!((middle, inner, environment.len()), (1, 2, 3));
    environment.define(middle, "middle".to_string(), number(2.0));
    assert_eq!(environment.get(inner, &name("outer")), Some(&number(1.0)));
    assert_eq!(environment.get(inner, &name("middle")), Some(&number(2.0)));
    assert_eq!(environment.get(0, &name("middle")), None);
}

#[test]
fn define_shadows_an_outer_binding() {
    let mut environment = Environment::new();
    environment.define(0, "a".to_string(), number(1.0));
    let inner = environment.enclose(0);
    environment.define(inner, "a".to_string(), number(2.0));
    assert_eq!(environment.get(inner, &name("a")), Some(&number(2.0)));
    assert_eq!(environment.get(0, &name("a")), Some(&number(1.0)));
}

#[test]
fn sibling_scopes_do_not_see_each_other() {
    let mut environment = Environment::new();
    let left = environment.enclose(0);
    let right = environment.enclose(0);
    environment.define(left, "a".to_string(), number(1.0));
    assert_eq!(environment.get(right, &name("a")), None);
    assert_eq!(environment.get(left, &name("a")), Some(&number(1.0)));
}

#[test]
fn assign_writes_into_the_nearest_defining_scope() {
    let mut environment = Environment::new();
    environment.define(0, "a".to_string(), number(1.0));
    let middle = environment.enclose(0);
    environment.define(middle, "a".to_string(), number(2.0));
    let inner = environment.enclose(middle);
    assert_eq!(environment.assign(inner, &name("a"), number(3.0)), Ok(()));
    assert_eq!(environment.get(inner, &name("a")), Some(&number(3.0)));
    assert_eq!(environment.get(middle, &name("a")), Some(&number(3.0)));
    assert_eq!(environment.get(0, &name("a")), Some(&number(1.0)));
}

#[test]
fn assign_after_redefinition_changes_the_binding_that_counts() {
    let mut environment = Environment::new();
    environment.define(0, "a".to_string(), number(1.0));
    environment.define(0, "b".to_string(), number(5.0));
    environment.define(0, "a".to_string(), number(2.0));
    assert_eq!(environment.assign(0, &name("a"), number(3.0)), Ok(()));
    assert_eq!(environment.get(0, &name("a")), Some(&number(3.0)));
    assert_eq!(environment.get(0, &name("b")), Some(&number(5.0)));
}

#[test]
fn assign_to_an_undefined_name_fails_in_every_scope() {
    let mut environment = Environment::new();
    let middle = environment.enclose(0);
    let inner = environment.enclose(middle);
    let sibling = environment.enclose(0);
    environment.define(sibling, "a".to_string(), number(1.0));
    for scope in [0, middle, inner] {
        assert_eq!(
            environment.assign(scope, &name("a"), number(2.0)),
            Err(RuntimeError::UndefinedVariable { name: "a".to_string(), line: 7 })
        );
        assert_eq!(environment.get(scope, &name("a")), None);
    }
    assert_eq!(environment.get(sibling, &name("a")), Some(&number(1.0)));
}

#[test]
fn callables_know_their_arity_and_name() {
    let clock = LoxCallable::Native(Clock::new());
    assert_eq!(clock.arity(), 0);
    assert_eq!(clock.name(), "<builtin fn clock>");
    assert_eq!(Clock::new().arity(), 0);

    let declared = name("add");
    let params = vec![name("a"), name("b")];
    let body: Vec<Stmt> = Vec::new();
    let function = LoxFunction::new(&declared, &params, &body, 3);
    assert_eq!(function.arity(), 2);
    assert_eq!(function.name(), "add");
    assert_eq!(function.closure, 3);
    let callable = LoxCallable::Function(function);
    assert_eq!(callable.arity(), 2);
    assert_eq!(callable.name(), "add");
}

#[test]
fn a_stored_value_is_cloned_with_its_content() {
    let value = Value::String("text".to_string());
    assert_eq!(value.clone(), value);
    let token = Token::new(TokenType::String, "\"a\"".to_string(), Object::String("a".to_string()), 3);
    assert_eq!(token.clone(), token);
    assert_eq!(Object::Number("1.5".to_string()).clone(), Object::Number("1.5".to_string()));
}
