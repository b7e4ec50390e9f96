use plush::ast::Program;
use plush::ids::ClassId;
use plush::insns::Insn;
use plush::parser::parse_str;
use plush::value::Value;
use plush::vm::{Outcome, VM};

fn eval(s: &str) -> Value
{
    let mut prog = parse_str(s).unwrap();
    prog.resolve_syms().unwrap();
    let main_fn = prog.main_fn;
    let mut vm = VM::new(prog);
    VM::call(&mut vm, main_fn, vec![]).unwrap()
}

fn eval_eq(s: &str, v: Value)
{
    let val = eval(s);
    assert_eq!(val, v);
}

#[test]
fn insn_size()
{
    assert!(std::mem::size_of::<Value>() == 8);
    assert!(std::mem::size_of::<Insn>() <= 24);
    assert!(std::mem::size_of::<ClassId>() <= 4);
}

#[test]
fn vm_new()
{
    let prog = Program::new();
    let _vm = VM::new(prog);
}

#[test]
fn empty_unit()
{
    eval_eq("", Value::NIL());
}

#[test]
fn simple_exprs()
{
    eval_eq("return 77;", Value::fixnum(77));
    eval_eq("return -77;", Value::fixnum(-77));
    eval_eq("return 1 + 5;", Value::fixnum(6));
    eval_eq("return 5 - 3;", Value::fixnum(2));
    eval_eq("return 2 * 3 + 4;", Value::fixnum(10));
    eval_eq("return 5 + 2 * -2;", Value::fixnum(1));
    eval_eq("return 2 * 2 - 1;", Value::fixnum(3));
}

#[test]
fn if_else()
{
    eval_eq("if (true) return 1; return 2;", Value::fixnum(1));
    eval_eq("if (false) return 1; return 2;", Value::fixnum(2));
    eval_eq("if (true) return 77; else return 88;", Value::fixnum(77));
    eval_eq("if (false) return 77; else return 88;", Value::fixnum(88));
    eval_eq("if (3 < 5) return 1; return 2;", Value::fixnum(1));
}

#[test]
fn logical_and()
{
    eval_eq("if (false && false) return 1; else return 0;", Value::fixnum(0));
    eval_eq("if (false && true) return 1; else return 0;", Value::fixnum(0));
    eval_eq("if (true && false) return 1; else return 0;", Value::fixnum(0));
    eval_eq("if (true && true) return 1; else return 0;", Value::fixnum(1));
}

#[test]
fn logical_or()
{
    eval_eq("if (false || false) return 1; else return 0;", Value::fixnum(0));
    eval_eq("if (false || true) return 1; else return 0;", Value::fixnum(1));
    eval_eq("if (true || false) return 1; else return 0;", Value::fixnum(1));
    eval_eq("if (true || true) return 1; else return 0;", Value::fixnum(1));
}

#[test]
fn let_expr()
{
    eval_eq("let x = 1; return x;", Value::fixnum(1));
    eval_eq("let var x = 1; return x;", Value::fixnum(1));
    eval_eq("let x = 1; let y = 2; return x + y;", Value::fixnum(3));
}

#[test]
fn inc_dec()
{
    eval_eq("let var x = 10; --x; return x;", Value::fixnum(9));
}

#[test]
fn assign()
{
    eval_eq("let var x = 1; x = 2; return x;", Value::fixnum(2));
}

#[test]
#[should_panic]
fn assign_const()
{
    eval("let x = 1; x = 2;");
}

#[test]
fn assert_stmt()
{
    eval("assert(1 != nil);");
    eval("assert(nil == nil);");
    eval("let x = 1; assert(x == 1);");
    eval("let x = 1; assert(x < 2);");
    eval("let var x = 1; x = x + 1; assert(x < 10);");
}

#[test]
fn comparisons()
{
    eval_eq("class F {} let o1 = F(); let o2 = F(); return o1 == o2;", Value::FALSE());
    eval_eq("class F {} let o1 = F(); let o2 = F(); return o1 != o2;", Value::TRUE());
    eval_eq("return 3 <= 5;", Value::TRUE());
    eval_eq("return 'foo' == 'bar';", Value::FALSE());
    eval_eq("return 'foo' == 'foo';", Value::TRUE());
    eval_eq("return 'foo' != 'foo';", Value::FALSE());
}

#[test]
fn vm_ternary_expr()
{
    eval_eq("return true? 1:2;", Value::fixnum(1));
    eval_eq("return false? 1:2;", Value::fixnum(2));
    eval_eq("let b = (1 < 5)? 1:2; return b;", Value::fixnum(1));
}

#[test]
fn scope_shadow()
{
    eval("let x = 1; { let x = x + 1; assert(x==2); } assert(x==1);");
}

#[test]
fn while_loop()
{
    eval_eq("let x = 1; while (false) {} return x;", Value::fixnum(1));
    eval_eq("let var x = 1; while (x < 10) { x = x + 1; } return x;", Value::fixnum(10));
}

#[test]
fn for_loop()
{
    eval("for (;;) break;");
    eval_eq("let x = 1; for (let var x = 0; x < 10; ++x) {} return x;", Value::fixnum(1));
    eval_eq("let var x = 0; for (let var i = 0; i < 10; ++i) { x = x + 2; } return x;", Value::fixnum(20));
    eval_eq("let var x = 0; for (let var i = 0; i < 10; ++i) { ++x; assert(x < 11); continue; } return x;", Value::fixnum(10));
}

#[test]
fn fun_call()
{
    eval_eq("fun f() { return 7; } return f();", Value::fixnum(7));
    eval_eq("fun f(x) { return x + 1; } return f(7);", Value::fixnum(8));
    eval_eq("fun f(a, b) { return a - b; } return f(7, 2);", Value::fixnum(5));
    eval_eq("let g = 3; fun f() { return g+1; } return f();", Value::fixnum(4));
    eval_eq("fun a() { return 8; } fun b() { return a(); } return b();", Value::fixnum(8));
}

#[test]
fn ret_clos()
{
    eval_eq("fun a() { fun b() { return 33; } return b; } let f = a(); return f();", Value::fixnum(33));
}

#[test]
fn capture_local()
{
    eval_eq("fun f(n) { return || n+1; } let g = f(7); return g();", Value::fixnum(8));
    eval_eq("fun f(n) { let m = n+1; return || m+1; } let g = f(3); return g();", Value::fixnum(5));
    eval_eq("fun f(n) { let m = n+1; return |x| m+x; } let g = f(3); return g(4);", Value::fixnum(8));
}

#[test]
fn counter_clos()
{
    eval_eq("fun f() { let var n = 0; return || n; } let c = f(); return c();", Value::fixnum(0));
    eval_eq("fun f() { let var n = 0; return || n = 1; } let c = f(); return c();", Value::fixnum(1));
    eval_eq("fun f() { let var n = 0; return || ++n; } let c = f(); c(); return c();", Value::fixnum(2));
}

#[test]
fn fact()
{
    eval_eq("fun f(n) { if (n < 2) return 1; return n * f(n-1); } return f(6);", Value::fixnum(720));
}

#[test]
fn fib()
{
    eval_eq("fun f(n) { if (n < 2) return n; return f(n-1) + f(n-2); } return f(10);", Value::fixnum(55));
}

#[test]
fn call_ahead()
{
    eval_eq("fun a() { return b(); } fun b() { return 7; } return a();", Value::fixnum(7));
}

#[test]
fn mutual_rec()
{
    eval_eq("fun a(n) { return b(n-1); } fun b(n) { if (n<1) return 0; return a(n-1); } return a(8);", Value::fixnum(0));
}

#[test]
#[should_panic]
fn int_overflow()
{
    eval("return 4611686018427387904 * 4;");
}

#[test]
fn vm_strings()
{
    eval_eq("return ''.len;", Value::fixnum(0));
    eval_eq("return 'hello'.len;", Value::fixnum(5));
    eval_eq("let s1 = 'foo'; let s2 = 'bar'; return s1 + s2 == 'foobar';", Value::TRUE());
}

#[test]
#[should_panic]
fn get_undef_field()
{
    eval("class F { g(s) { s.x = 3; } } let o = F(); o.x;");
}

#[test]
#[should_panic]
fn ctor_argc_mismatch()
{
    eval("class Foo { init(s) {} } let o = Foo(1);");
}

#[test]
#[should_panic]
fn no_ctor_arg()
{
    eval("class Foo {} let o = Foo(1);");
}

#[test]
fn vm_instanceof()
{
    eval_eq("class F {} return nil instanceof F;", Value::FALSE());
    eval_eq("class F {} let o = F(); return o instanceof F;", Value::TRUE());
    eval_eq("class F {} class G {} let o = F(); return o instanceof G;", Value::FALSE());
    eval_eq("class F {} return F() instanceof F;", Value::TRUE());
    eval_eq("return nil instanceof Int64;", Value::FALSE());
    eval_eq("return true instanceof Int64;", Value::FALSE());
    eval_eq("return 5 instanceof Int64;", Value::TRUE());
    eval_eq("return 77 instanceof String;", Value::FALSE());
    eval_eq("return 'foo' instanceof String;", Value::TRUE());
    eval_eq("return [] instanceof Array;", Value::TRUE());
    eval_eq("return {} instanceof Dict;", Value::TRUE());
}

#[test]
fn classes_and_constructors()
{
    eval("class Foo {}");
    eval("class Foo { init(self) {} }");
    eval("class Foo {} let o = Foo();");
    eval("class Foo { init(s) {} } let o = Foo();");
    eval("class Foo { init(s, a) {} } let o = Foo(1);");
    eval_eq("class Foo {} return Foo() != nil;", Value::TRUE());
    eval_eq("class Foo { init(s) {} } return Foo() != nil;", Value::TRUE());
}

#[test]
fn failed_assertion_is_an_error()
{
    let mut prog = parse_str("assert(1 == 2);").unwrap();
    prog.resolve_syms().unwrap();
    let main_fn = prog.main_fn;
    let mut vm = VM::new(prog);
    assert!(VM::call(&mut vm, main_fn, vec![]).is_err());
}

#[test]
fn vm_dicts()
{
    eval("let o = {};");
    eval("let o = { x: 1, y: 2 };");
    eval_eq("let o = { x: 1, y: 2 }; return o.x;", Value::fixnum(1));
    eval_eq("let o = { x: 1, y: 2 }; return o.x + o.y;", Value::fixnum(3));
    eval_eq("let o = { 'x': 77 }; return o.x;", Value::fixnum(77));
    eval_eq("let o = { 'foo bar': 5 }; return o['foo bar'];", Value::fixnum(5));
    eval_eq("let o = { x:5 }; o['x'] = 3; return o.x;", Value::fixnum(3));
    eval_eq("let o = { x:5 }; return o.has('x');", Value::TRUE());
}

#[test]
#[should_panic]
fn dict_missing_key()
{
    eval("let v = {}.x;");
}

#[test]
fn dict_grows_past_its_first_table()
{
    eval_eq("let o = {}; o.a = 1; o.b = 2; o.c = 3; o.d = 4; o.e = 5; return o.a + o.e;", Value::fixnum(6));
    eval_eq("let o = { x: 1 }; return o.has('y');", Value::FALSE());
}

#[test]
fn int64()
{
    eval("let v = 15; assert(v.to_s() == '15');");
}

#[test]
fn int_and_string_methods()
{
    eval_eq("let x = -7; return x.abs();", Value::fixnum(7));
    eval_eq("let x = 7; return x.idiv(2);", Value::fixnum(3));
    eval_eq("let x = 9; return x.clip(0, 5);", Value::fixnum(5));
    eval_eq("let x = 4611686018427387904; return x.to_s().len;", Value::fixnum(19));
    eval_eq("let x = 1234567; return x.comma_sep() == '1,234,567';", Value::TRUE());
    eval_eq("let x = 255; return x.to_hex(4) == '00FF';", Value::TRUE());
    eval_eq("return true.to_s() == 'true';", Value::TRUE());
    eval_eq("return nil.to_s() == 'nil';", Value::TRUE());
    eval_eq("return '  pad '.trim() == 'pad';", Value::TRUE());
    eval_eq("return 'abc'.byte_at(1);", Value::fixnum(98));
    eval_eq("return 'abc'.char_at(2) == 'c';", Value::TRUE());
    eval_eq("return '-12'.parse_int(10);", Value::fixnum(-12));
    eval_eq("return 'x1'.parse_int(10);", Value::NIL());
    eval_eq("let a = 'a,b,c'.split(','); return a.len;", Value::fixnum(3));
    eval_eq("let a = 'a,b,c'.split(','); return a[1] == 'b';", Value::TRUE());
    eval_eq("return String.from_codepoint(65) == 'A';", Value::TRUE());
    eval_eq("return 'abc'.upper() == 'ABC';", Value::TRUE());
    eval_eq("return 'ABC'.lower() == 'abc';", Value::TRUE());
}

#[test]
fn vm_arrays()
{
    eval("let a = [];");
    eval("let a = [1, 2, 3];");
    eval_eq("let a = [11, 22, 33]; return a[0];", Value::fixnum(11));
    eval_eq("let a = [11, 22, 33]; return a[2];", Value::fixnum(33));
    eval_eq("let a = [11, 22, 33]; a[2] = 44; return a[2];", Value::fixnum(44));
    eval_eq("let a = [11, 22, 33]; return a.len;", Value::fixnum(3));
    eval_eq("let a = [11, 22, 33]; a.push(44); return a.len;", Value::fixnum(4));
    eval_eq("let a = Array.with_size(5, nil); return a.len;", Value::fixnum(5));
}

#[test]
fn array_methods()
{
    eval_eq("let a = [1, 2, 3]; return a.pop();", Value::fixnum(3));
    eval_eq("let a = [1, 2, 3]; a.remove(0); return a[0];", Value::fixnum(2));
    eval_eq("let a = [1, 3]; a.insert(1, 2); return a[1];", Value::fixnum(2));
    eval_eq("let a = [1, 2]; a.append([3, 4]); return a.len;", Value::fixnum(4));
    eval_eq("let a = [1, 2]; a.resize(5, 0); return a[4];", Value::fixnum(0));
}

#[test]
fn array_index_out_of_bounds()
{
    let mut prog = parse_str("let a = [1, 2, 3]; return a[3];").unwrap();
    prog.resolve_syms().unwrap();
    let main_fn = prog.main_fn;
    let mut vm = VM::new(prog);
    assert!(VM::call(&mut vm, main_fn, vec![]).is_err());
}

#[test]
fn bytearray_literals_are_fresh_copies()
{
    eval_eq("let a = #[\\x01 02]; let b = a; return a == b;", Value::TRUE());
    eval_eq("fun f() { return #[\\x01 02]; } return f() == f();", Value::FALSE());
    eval_eq("let a = #[\\aabc]; return a instanceof ByteArray;", Value::TRUE());
}

#[test]
fn negated_comparisons_branch_when_false()
{
    eval_eq("let a = 3; if (!(a < 2)) return 1; return 0;", Value::fixnum(1));
    eval_eq("let a = 1; if (a >= 2) return 1; return 0;", Value::fixnum(0));
    eval_eq("let a = 2; if (a <= 2) return 1; return 0;", Value::fixnum(1));
    eval_eq("let var a = 5; let var n = 0; while (a > 2) { a = a - 1; n = n + 1; } return n;", Value::fixnum(3));
}

#[test]
fn host_calls_stop_the_machine()
{
    let mut prog = parse_str("$println(5); return 3;").unwrap();
    prog.resolve_syms().unwrap();
    let main_fn = prog.main_fn;
    let mut vm = VM::new(prog);
    let mut run = vm.actor.start(&vm.prog, Value::fun(main_fn), &[]).unwrap();
    match vm.actor.run(&vm.prog, &mut run).unwrap() {
        Outcome::Host { host_fn, base, args } => {
            assert_eq!(host_fn, 5);
            assert_eq!(args, vec![Value::fixnum(5)]);
            vm.actor.host_return(base, Value::NIL()).unwrap();
        }
        Outcome::Done(_) => panic!("expected a host call"),
    }
    match vm.actor.run(&vm.prog, &mut run).unwrap() {
        Outcome::Done(v) => assert_eq!(v, Value::fixnum(3)),
        Outcome::Host { .. } => panic!("expected the program's value"),
    }
}

#[test]
fn host_function_values_are_called_by_the_host()
{
    let mut prog = parse_str("let p = $println; p(7); return 1;").unwrap();
    prog.resolve_syms().unwrap();
    let main_fn = prog.main_fn;
    let mut vm = VM::new(prog);
    let mut run = vm.actor.start(&vm.prog, Value::fun(main_fn), &[]).unwrap();
    match vm.actor.run(&vm.prog, &mut run).unwrap() {
        Outcome::Host { host_fn, base, args } => {
            assert_eq!(host_fn, 5);
            assert_eq!(args, vec![Value::fixnum(7)]);
            vm.actor.host_return(base, Value::NIL()).unwrap();
        }
        Outcome::Done(_) => panic!("expected a host call"),
    }
    match vm.actor.run(&vm.prog, &mut run).unwrap() {
        Outcome::Done(v) => assert_eq!(v, Value::fixnum(1)),
        Outcome::Host { .. } => panic!("expected the program's value"),
    }
}

#[test]
fn bytearray_methods()
{
    eval_eq("let a = ByteArray.with_size(8); return a.num_u32();", Value::fixnum(2));
    eval_eq("let a = ByteArray.with_size(8); a.set_u32(1, 0x01020304); return a.get_u32(1);", Value::fixnum(0x01020304));
    eval_eq("let a = ByteArray.with_size(8); a.write_u32(0, 7); return a.read_u32(0);", Value::fixnum(7));
    eval_eq("let a = ByteArray.with_size(8); a.store_u32(1, 0xAABBCCDD); return a.load_u32(1);", Value::fixnum(0xAABBCCDD));
    eval_eq("let a = ByteArray.with_size(8); a.store_u32(0, 0x01020304); return a.load_u16(1);", Value::fixnum(0x0203));
    eval_eq("let a = ByteArray.with_size(4); a.store_u16(0, 0x12345); return a.load_u32(0);", Value::fixnum(0x2345));
    eval_eq("let a = ByteArray.with_size(16); a.fill_u32(1, 2, 9); return a.get_u32(0) + a.get_u32(1) + a.get_u32(2) + a.get_u32(3);", Value::fixnum(18));
    eval_eq("let a = ByteArray.with_size(8); a.fill_u32(0, 2, 5); a.zero_fill(); return a.get_u32(1);", Value::fixnum(0));
    eval_eq("let a = ByteArray.with_size(8); let b = ByteArray.with_size(8); b.set_u32(0, 42); a.memcpy(4, b, 0, 4); return a.get_u32(1);", Value::fixnum(42));
    eval_eq("let a = #[\\x01 02 03 04]; return a.load_u32(0);", Value::fixnum(0x04030201));
}

#[test]
fn bytearray_bounds_are_errors()
{
    let mut prog = parse_str("let a = ByteArray.with_size(4); return a.get_u32(1);").unwrap();
    prog.resolve_syms().unwrap();
    let main_fn = prog.main_fn;
    let mut vm = VM::new(prog);
    assert!(VM::call(&mut vm, main_fn, vec![]).is_err());
}

#[test]
fn bytearray_resize()
{
    eval_eq("let a = ByteArray.with_size(4); a.set_u32(0, 77); a.resize(12); return a.get_u32(0) + a.get_u32(2) + a.num_u32();", Value::fixnum(80));
    eval_eq("let a = ByteArray.with_size(8); a.set_u32(1, 5); a.resize(4); return a.num_u32();", Value::fixnum(1));
}
