use ysetl::compiler::symbols::{Scope, SymbolRegistry};
use ysetl::error::CompileError;

#[test]
fn globals() {
    let mut reg = SymbolRegistry::new();
    reg.register("a").unwrap();
    reg.register("b").unwrap();
    assert_eq!(reg.size(), 2);
    let a_sym = reg.lookup("a").unwrap();
    assert_eq!(a_sym.index, 0);
    assert_eq!(a_sym.scope, Scope::GLOBAL);
    assert_eq!(reg.lookup("b").unwrap().index, 1);
    assert!(reg.lookup("c").is_none());
}

#[test]
fn locals() {
    let mut reg = SymbolRegistry::new();
    reg.register("b").unwrap();
    reg.register("a").unwrap();
    reg.enter_scope();
    reg.register("a").unwrap();

    assert_eq!(reg.size(), 1);
    let a_sym = reg.lookup("a").unwrap();
    assert_eq!(a_sym.index, 0);
    assert_eq!(a_sym.scope, Scope::LOCAL);
    let b_sym = reg.lookup("b").unwrap();
    assert_eq!(b_sym.index, 0);
    assert_eq!(b_sym.scope, Scope::GLOBAL);

    reg.exit_scope();
    assert_eq!(reg.size(), 2);
    let a_sym = reg.lookup("a").unwrap();
    assert_eq!(a_sym.index, 1);
}

#[test]
fn register_is_idempotent_within_a_scope() {
    let mut reg = SymbolRegistry::new();
    let first = reg.register("a").unwrap();
    reg.register("b").unwrap();
    let again = reg.register("a").unwrap();
    assert_eq!(first.index, 0);
    assert_eq!(again.index, 0);
    assert_eq!(again.id, "a");
    assert_eq!(again.scope, Scope::GLOBAL);
    assert_eq!(reg.size(), 2);
    assert_eq!(reg.depth(), 1);
}

#[test]
fn inner_scopes_are_local_and_shadow() {
    let mut reg = SymbolRegistry::new();
    reg.register("g").unwrap();
    reg.enter_scope();
    reg.enter_scope();
    assert_eq!(reg.depth(), 3);
    assert_eq!(reg.size(), 0);
    // a global name looked up from any depth is global
    assert_eq!(reg.lookup("g").unwrap().scope, Scope::GLOBAL);
    let local = reg.register("g").unwrap();
    assert_eq!(local.scope, Scope::LOCAL);
    assert_eq!(local.index, 0);
    assert_eq!(reg.lookup("g").unwrap().scope, Scope::LOCAL);
    reg.exit_scope();
    assert_eq!(reg.lookup("g").unwrap().scope, Scope::GLOBAL);
    reg.exit_scope();
    assert_eq!(reg.depth(), 1);
}

#[test]
fn the_global_scope_stays() {
    let mut reg = SymbolRegistry::new();
    reg.register("a").unwrap();
    reg.exit_scope();
    assert_eq!(reg.depth(), 1);
    assert_eq!(reg.size(), 1);
    assert_eq!(reg.lookup("a").unwrap().index, 0);
}

#[test]
fn a_scope_holds_65536_names() {
    let mut reg = SymbolRegistry::new();
    reg.enter_scope();
    for n in 0..65536u32 {
        // names that differ early are told apart quickly
        let name = format!("{:x}_", n.reverse_bits());
        let symbol = reg.register(&name).unwrap();
        assert_eq!(symbol.index as u32, n);
    }
    assert_eq!(reg.size(), 65536);
    assert_eq!(reg.register("one_more").unwrap_err(), CompileError::TooManySymbols);
    // a name that is there is still found
    assert_eq!(reg.register("0_").unwrap().index, 0);
    assert_eq!(reg.size(), 65536);
}
