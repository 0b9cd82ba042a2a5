use cinder_core::smap::StrMap;
use cinder_core::variable_store::{VariableDeclaration, VariableScope, VariableStore, VariableType};

fn decl(scope: VariableScope) -> VariableDeclaration {
    VariableDeclaration {
        var_type: VariableType::String,
        default: None,
        scope,
    }
}

fn bool_decl(scope: VariableScope) -> VariableDeclaration {
    VariableDeclaration {
        var_type: VariableType::Bool,
        default: Some("false".to_string()),
        scope,
    }
}

fn int_decl(default: &str) -> VariableDeclaration {
    VariableDeclaration {
        var_type: VariableType::Int,
        default: Some(default.to_string()),
        scope: VariableScope::Game,
    }
}

#[test]
fn get_returns_none_for_missing() {
    let store = VariableStore::default();
    assert_eq!(store.get("missing"), None);
}

#[test]
fn set_and_get() {
    let mut store = VariableStore::default();
    store.set_unchecked("foo", "bar");
    assert_eq!(store.get("foo"), Some("bar"));
}

#[test]
fn has_key() {
    let mut store = VariableStore::default();
    assert!(!store.has("foo"));
    store.set_unchecked("foo", "bar");
    assert!(store.has("foo"));
}

#[test]
fn declarations_populate_defaults() {
    let mut decls = StrMap::new();
    decls.insert_str(
        "greeting",
        VariableDeclaration {
            var_type: VariableType::String,
            default: Some("hello".to_string()),
            scope: VariableScope::Game,
        },
    );
    let store = VariableStore::new(decls);
    assert_eq!(store.get("greeting"), Some("hello"));
}

#[test]
fn clear_scoped_removes_only_matching_scope() {
    let mut decls = StrMap::new();
    decls.insert_str("a", decl(VariableScope::Act));
    decls.insert_str("b", decl(VariableScope::Game));
    let mut store = VariableStore::new(decls);
    store.set_unchecked("a", "1");
    store.set_unchecked("b", "2");
    store.clear_scoped(VariableScope::Act);
    assert!(!store.has("a"));
    assert!(store.has("b"));
}

#[test]
fn bool_validation() {
    let mut decls = StrMap::new();
    decls.insert_str("flag", bool_decl(VariableScope::Game));
    let mut store = VariableStore::new(decls);
    assert!(store.set("flag", "true").is_ok());
    assert!(store.set("flag", "false").is_ok());
    assert!(store.set("flag", "maybe").is_err());
}

#[test]
fn int_validation() {
    let mut decls = StrMap::new();
    decls.insert_str("count", int_decl("0"));
    let mut store = VariableStore::new(decls);
    assert!(store.set("count", "42").is_ok());
    assert!(store.set("count", "-1").is_ok());
    assert!(store.set("count", "abc").is_err());
}

#[test]
fn render_template_curly() {
    let mut store = VariableStore::default();
    store.set_unchecked("name", "Alice");
    assert_eq!(store.render_template("Hello {name}!"), "Hello Alice!");
}

#[test]
fn render_template_dollar() {
    let mut store = VariableStore::default();
    store.set_unchecked("name", "Alice");
    assert_eq!(store.render_template("Hello $name!"), "Hello Alice!");
}

#[test]
fn render_template_mixed() {
    let mut store = VariableStore::default();
    store.set_unchecked("a", "1");
    store.set_unchecked("b", "2");
    assert_eq!(store.render_template("{a} and $b"), "1 and 2");
}

#[test]
fn undeclared_var_allows_set() {
    let store = VariableStore::default();
    let mut store = store;
    assert!(store.set("unknown", "value").is_ok());
}

#[test]
fn values_mut_edits_read_back_through_the_store() {
    let mut store = VariableStore::new(StrMap::new());
    store.set_unchecked("mood", "calm");
    store.values_mut().insert_str("mood", "tense".to_string());
    assert_eq!(store.get("mood"), Some("tense"));
    store.values_mut().insert_str("weather", "rain".to_string());
    assert_eq!(store.get("weather"), Some("rain"));
}
