use plush::lexer::{FileIdMap, Lexer};
use plush::parser::{parse_program, parse_str};

fn parse_ok(src: &str)
{
    let mut files = FileIdMap::new();
    let mut input = Lexer::new(&src, "src", &mut files);
    parse_program(&mut input).unwrap();
}

fn parse_fails(src: &str)
{
    let mut files = FileIdMap::new();
    let mut input = Lexer::new(&src, "src", &mut files);
    assert!(parse_program(&mut input).is_err());
}

#[test]
fn simple_unit()
{
    parse_ok("");
    parse_ok(" ");
    parse_ok("// Hi!\n ");
    parse_ok("/* Hi! */");
    parse_ok("/* Hi\nthere */");
    parse_ok("/* Hi\n/*there*/ */");
    parse_ok("x;");
    parse_ok("1;");
    parse_ok("1; ");
    parse_ok(" \"foobar\";");
    parse_ok("'foo\tbar\nbif';");
    parse_ok("1_000_000;");
    parse_ok("+3;");
    parse_ok("+3.5;");

    // No semicolon
    parse_fails("x");
}

#[test]
fn infix_exprs()
{
    // Should parse
    parse_ok("1 + 2;");
    parse_ok("1 + 2 * 3;");
    parse_ok("1 + 2 + 3;");
    parse_ok("1 + 2 + 3 + 4;");
    parse_ok("(1) + 2 + 3 * 4;");
    parse_ok("1 * -3;");

    // Should not parse
    parse_fails("1 + 2 +;");
}

#[test]
fn parser_ternary_expr()
{
    parse_ok("1? 2:3;");
    parse_ok("let a = 1? (2+3):4;");
}

#[test]
fn parser_globals()
{
    parse_ok("let x = 1;");
    parse_ok("let x = 20;");
    parse_ok("let x = true; let y = false;");
    parse_ok("let var x = 1;");
    parse_ok("let var x = 2; fun main() {}");
    parse_ok("let v = -1;");
    parse_ok("let str = \"FOO\n\";");
    parse_ok("let str = 'foo\nbar';");

    // Regressions
    parse_ok("let g0 = 1;//\n//\n//\nlet g1 = 2;");

    // Missing semicolon
    parse_fails("let g = 2");
}

#[test]
fn numeric_literals()
{
    parse_ok("let g = 400_000;");
    parse_ok("let g = 400_000_;");
    parse_ok("let f = 0.2;");
    parse_ok("let f = 4.567;");
    parse_ok("let f = 4.56e78;");
    parse_ok("let f = 4.5_6e8_;");

    // Invalid format
    parse_fails("let f = 4..5;");
    parse_fails("let f = 4.5.;");
}

#[test]
fn parser_strings()
{
    parse_ok("let c = 'f';");
    parse_ok("let c = '\n';");
    parse_ok("let s = \"foo\";");

    // Double-quoted strings get concatenated
    parse_ok("let s = \"foo\" \"bar\";");
    parse_ok("let s = \"foo\"\n\"bar\";");

    // Single-quoted strings do not get concatenated
    parse_fails("let s = 'foo' 'bar';");
}

#[test]
fn call_expr()
{
    parse_ok("foo();");
    parse_ok("foo(0);");
    parse_ok("foo(0,);");
    parse_ok("foo(0,1);");
    parse_ok("foo( 0 , 1 , 2 , );");
    parse_ok("foo(0,1,2) + 3;");
    parse_ok("foo(0,1,2) + bar();");
}

#[test]
fn parser_host_call()
{
    parse_ok("$println(123);");
}

#[test]
fn fun_decl()
{
    parse_ok("fun main() {}");
    parse_ok("fun main(argc, argv) { return 0; }");
    parse_ok("fun main(argc, argv) {}");

    parse_ok("fun foo() { /* hello! */}");
    parse_ok("fun foo() { {} }");
    parse_ok("fun foo() { return (0); }");
    parse_ok("fun foo() { return 0; }");
    parse_ok("fun foo() { return -2; }");
    parse_ok("fun foo() { return !1; }");
    parse_ok("fun foo() { \"foo\"; return 77; }");
    parse_ok("fun foo() { 333; return 77; }");
    parse_ok("fun foo() { return none; }");
    parse_ok("fun foo( a , b ) { return 77; }");

    // Should fail to parse
    parse_fails("fun foo();");
    parse_fails("fun foo() return 0;");
    parse_fails("fun f foo();");
    parse_fails("funx() {}");
}

#[test]
fn local_vars()
{
    parse_ok("fun main() { let x = 0; return; }");
    parse_ok("fun main() { let crc = 0xFFFFFFFF; return; }");
    parse_ok("fun main() { let x = 0; let y = x + 1; return; }");
    parse_ok("fun main() { let x = 0; foo(x); return; }");
    parse_ok("let global = 1; fun main() { let p = global + 1; return; }");
}

#[test]
fn stmts()
{
    parse_ok("let x = 3;");
    parse_ok("let str = 'foo';");
    parse_ok("let x = 3; let y = 5;");
    parse_ok("{ let x = 3; x; } let y = 4;");

    parse_ok("let x = 3;");
    parse_ok("let x = 3; return x;");
    parse_ok("let x = 3; if (!x) x = 1;");
}

#[test]
fn fun_expr()
{
    parse_ok("let f = || {};");
    parse_ok("let f = |x| {};");
    parse_ok("let f = |x| x;");
    parse_ok("let f = |x| x + 1;");
    parse_ok("let f = |x| (x+1);");
    parse_ok("let f = |x,| {};");
    parse_ok("let f = |x,y| {};");
    parse_ok("let f = |x, y| { return 1; };");
    parse_fails("let f = |x,y,1| {};");
}

#[test]
fn parser_dicts()
{
    // Literals
    parse_ok("let o = {};");
    parse_ok("let o = { x: 1, y: 2};");

    // Member operator
    parse_ok("let v = a.b;");
    parse_ok("a.b = c;");
}

#[test]
fn parser_arrays()
{
    // Literals
    parse_ok("let a = [];");
    parse_ok("let a = [1];");
    parse_ok("let a = [1, 2];");
    parse_ok("let a = [ 1 , 2, 3 ];");

    // Single and double indexing
    parse_ok("let a = nil; a[0];");
    parse_ok("let a = nil; a[0][0];");
    parse_ok("let a = nil; a[0][0]();");

    // Methods
    parse_ok("let a = []; a.push(1);");
}

#[test]
fn bytearrays()
{
    parse_ok("let a = #[];");
    parse_ok("let a = #[ ];");
    parse_ok("let a = #[\\aascii string foobar];");
    parse_ok("let a = #[\\aascii string\\tfoobar];");
    parse_ok("let a = #[\\aascii\n  \\astring\n  \\aover multiple lines];");

    // Hex sequences
    parse_ok("let a = #[\\xFF];");
    parse_ok("let a = #[\\xFF AA BB];");
    parse_ok("let a = #[\\xFF\n AA\n BB];");
    parse_ok("let a = #[\\xFF\n AA\n BB\n \\aascii string];");
    parse_ok("let a = #[\\xFF\n \\aascii string\n \\xCC];");
    parse_ok("let a = #[\\x\nFF\nAA\nBB\nCC];");

    // Binary sequences
    parse_ok("let a = #[\\b00000000];");
    parse_ok("let a = #[\\b00000000 00000001];");
    parse_ok("let a = #[\\b00000000 \\xFF \\afoobar];");

    // Can't have space right before a newline in an ascii sequence
    // This is because the space would be invisible in most editors,
    // and potentially also automatically removed by the editor
    parse_fails("let a = #[\\aascii \n];");

    // Currently ASCII sequences end with every newline
    // This is to allow spaces at the beginning of each line
    // for ease of formatting
    parse_fails("let a = #[\\aascii\nfoo];");

    // Incomplete hex byte
    parse_fails("let a = #[\\xF];");

    // Incomplete binary byte
    parse_fails("let a = #[\\b0000];");
}

#[test]
fn parser_classes()
{
    parse_ok("class Foo {}");
    parse_ok("let x = 1; class Foo {} let y = 2;");
    parse_ok("class Foo { init(self) {} }");
    parse_ok("class Foo { init(self) { self.x = 1; } }");
    parse_ok("class Foo { init(self) { self.x = 1; } inc(self) { ++self.x; } }");
    parse_ok("let o = Foo();");
    parse_ok("let o = Foo(1, 2, 3);");
}

#[test]
fn parser_instanceof()
{
    parse_ok("a instanceof Foo;");
}

#[test]
fn assign_stmt()
{
    parse_ok("let var x = 1; x = 2;");
    parse_ok("let var x = 2; let var y = 3; x = 1; y = 2; x = x + y;");
}

#[test]
fn if_stmt()
{
    parse_ok("if (1) {}");
    parse_ok("if (1) {} else {}");
    parse_ok("if (1) { foo(); }");
    parse_ok("if (1) { foo(); } else { bar(); }");
}

#[test]
fn loop_stmt()
{
    parse_ok("loop { break; }");
}

#[test]
fn while_stmt()
{
    parse_ok("while (1) { foo(); }");
    parse_ok("let i = 0; while (i < n) { foo(); i = i + 1; }");

    // Common error, don't accept
    parse_fails("while (1);");
}

#[test]
fn for_stmt()
{
    parse_ok("for (let var i = 0; i < 10; ++i) {}");
    parse_ok("for (;;) {}");

    // Common error, don't accept
    parse_fails("for (;;);");
}

#[test]
fn regress_prefix_postfix()
{
    parse_ok("return !a instanceof B;");
    parse_ok("return f() instanceof F;");
    parse_ok("return !f() instanceof F;");
}

#[test]
fn parse_str_rejects_what_parse_program_rejects()
{
    assert!(parse_str("let x = 1; fun f() { return x; }").is_ok());
    assert!(parse_str("let x = ;").is_err());
}

#[test]
fn parse_errors_carry_a_position()
{
    let err = parse_str("let x = 1;\nlet = 2;").unwrap_err();
    assert_eq!(err.pos.line_no(), 2);
}

#[test]
fn dict_quoted_keys()
{
    parse_ok("let o = { 'x': 77 };");
    parse_ok("let o = { \"foo bar\": 5, y: 2 };");
    parse_fails("let o = { 'x: 1 };");
    parse_fails("let o = { 5: 1 };");
}
