use plush::ast::Decl;
use plush::lexer::{FileIdMap, Lexer, SrcPos};
use plush::symbols::Env;
use plush::parser::parse_program;

fn succeeds(src: &str)
{
    let mut files = FileIdMap::new();
    let mut input = Lexer::new(&src, "src", &mut files);
    let mut prog = parse_program(&mut input).unwrap();
    prog.resolve_syms().unwrap();
}

fn fails(src: &str)
{
    let mut files = FileIdMap::new();
    let mut input = Lexer::new(&src, "src", &mut files);
    let mut prog = parse_program(&mut input).unwrap();
    assert!(prog.resolve_syms().is_err());
}

#[test]
fn basics()
{
    succeeds("");
    succeeds("let foo = fun() {};");
    succeeds("fun foo(a) { return a; }");

    // Local variables
    succeeds("fun main() { let a = 0; }");
    succeeds("fun foo(a) { let a = 0; }");

    // Infix expressions
    succeeds("fun foo(a, b) { return a + b; }");

    // Two functions with the same parameter name
    succeeds("fun foo(a) {} fun bar(a) {}");

    // Reference to global
    succeeds("let g = 1; fun foo() { return g; }");

    // Undefined local
    fails("fun foo() { return g; }")
}

#[test]
fn symbols_globals()
{
    succeeds("let g = 5; fun main() { return g; }");
    succeeds("let g = 5; fun main() { return g + 1; }");
    succeeds("let global_str = \"foo\"; fun main() {}");

    // Undefined global
    fails("g;");
}

#[test]
fn immutable()
{
    succeeds("let var g = 5; g = 6;");
    succeeds("let var f = fun() {}; f = 6;");

    fails("let g = 5; g = 6;");
    fails("fun f() {} f = 6;");
}

#[test]
fn keywords()
{
    fails("letx = 1;");
}

#[test]
fn calls()
{
    succeeds("fun foo() {} fun main() { foo(); }");
}

#[test]
fn unknown_host_constant_is_an_error()
{
    fails("let x = $nope;");
    succeeds("let x = $println;");
}

#[test]
fn duplicate_local_is_an_error()
{
    fails("fun f() { let a = 1; let a = 2; }");
    succeeds("fun f() { let a = 1; { let a = 2; } }");
}

#[test]
fn env_scopes_nest()
{
    let outer = Decl::Global { idx: 0, mutable: false };
    let inner = Decl::Global { idx: 1, mutable: true };

    let mut env = Env::new();
    assert!(env.lookup("x").is_none());
    env.define("x", outer, SrcPos::default()).unwrap();
    assert_eq!(env.lookup("x"), Some(outer));

    // A second declaration in the same scope is refused
    assert!(env.define("x", inner, SrcPos::default()).is_err());
    assert_eq!(env.lookup("x"), Some(outer));

    // An inner scope shadows, and closing it restores the outer one
    env.push_scope();
    env.define("x", inner, SrcPos::default()).unwrap();
    env.define("y", inner, SrcPos::default()).unwrap();
    assert_eq!(env.lookup("x"), Some(inner));
    env.pop_scope();
    assert_eq!(env.lookup("x"), Some(outer));
    assert!(env.lookup("y").is_none());
}
