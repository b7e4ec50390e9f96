use plush::insns::{
    add, add_imm16, call_host, call_method, call_method_host, call_opnd, get_global, jlt,
    load_imm32, ret_imm32, Insn, Opcode, NUM_OPCODES,
};

#[test]
fn opcode_count()
{
    assert_eq!(NUM_OPCODES, 59);
    assert!(NUM_OPCODES - 1 < 255);
    assert_eq!(Opcode::ret_imm32 as usize, NUM_OPCODES - 1);
}

#[test]
fn no_operands()
{
    let insn = Insn::nop();
    assert_eq!(insn.opcode(), Opcode::nop);
    assert_eq!(insn.word_u64(), Opcode::nop as u64);
    assert_eq!(Opcode::nop.num_opnds(), 0);
}

#[test]
fn panic_is_zero()
{
    assert_eq!(Insn::panic(0, 0, 0).word_u64(), 0);
}

#[test]
fn panic_src_pos()
{
    let insn = Insn::panic((1 << 12) - 1, (1 << 24) - 1, (1 << 20) - 1);
    assert_eq!(
        plush::insns::panic::decode(insn),
        plush::insns::panic { file_id: (1 << 12) - 1, line_no: (1 << 24) - 1, col_no: (1 << 20) - 1 }
    );
    assert_eq!(insn.word_u64(), u64::MAX & !0xFF);

    assert_eq!(plush::insns::panic::decode(Insn::panic(3, 0, 0)), plush::insns::panic { file_id: 3, line_no: 0, col_no: 0 });
    assert_eq!(plush::insns::panic::decode(Insn::panic(0, 3, 0)), plush::insns::panic { file_id: 0, line_no: 3, col_no: 0 });
    assert_eq!(plush::insns::panic::decode(Insn::panic(0, 0, 3)), plush::insns::panic { file_id: 0, line_no: 0, col_no: 3 });
}

#[test]
fn three_registers()
{
    let insn = Insn::add(1, 2, 3);
    assert_eq!(insn.opcode(), Opcode::add);
    assert_eq!(add::decode(insn), add { dst: 1, a: 2, b: 3 });
}

#[test]
fn register_extremes()
{
    let insn = Insn::add(u16::MAX, 0, u16::MAX);
    assert_eq!(add::decode(insn), add { dst: u16::MAX, a: 0, b: u16::MAX });
}

#[test]
fn signed_immediates_round_trip()
{
    for imm in [0, 1, -1, i16::MAX, i16::MIN] {
        let insn = Insn::add_imm16(7, 8, imm);
        assert_eq!(add_imm16::decode(insn), add_imm16 { dst: 7, a: 8, imm });
    }

    for imm in [0, 1, -1, i32::MAX, i32::MIN] {
        assert_eq!(ret_imm32::decode(Insn::ret_imm32(imm)), ret_imm32 { imm });
        assert_eq!(load_imm32::decode(Insn::load_imm32(3, imm)), load_imm32 { dst: 3, imm });
    }
}

#[test]
fn last_operand_is_top_aligned()
{
    assert_eq!((Insn::jlt(1, 2, -3).word_u64() as i64 >> 40) as i32, -3);
    assert_eq!((Insn::load_imm32(1, -7).word_u64() >> 32) as i32, -7);
}

#[test]
fn branch_disp_range()
{
    for disp in [0, 1, -1, (1 << 23) - 1, -(1 << 23)] {
        let insn = Insn::jlt(1, 2, disp);
        assert_eq!(jlt::decode(insn), jlt { a: 1, b: 2, disp });
    }
}

#[test]
fn branch_helpers()
{
    assert!(Opcode::jlt.is_branch());
    assert!(Opcode::jmp.is_branch());
    assert!(!Opcode::add.is_branch());

    assert_eq!(Insn::jlt(1, 2, -3).branch_disp(), Some(-3));
    assert_eq!(Insn::jmp(1234).branch_disp(), Some(1234));
    assert_eq!(Insn::add(1, 2, 3).branch_disp(), None);

    let patched = Insn::jlt(1, 2, 0).with_branch_disp(-3);
    assert_eq!(patched, Insn::jlt(1, 2, -3));
    assert_eq!(Insn::jmp(0).with_branch_disp(7), Insn::jmp(7));
}

#[test]
fn operands_do_not_overlap()
{
    assert_eq!(call_host::decode(Insn::call_host(u16::MAX, 0, 0)).start_reg, 0);
    assert_eq!(call_host::decode(Insn::call_host(0, u16::MAX, 0)).host_fn, 0);
    assert_eq!(call_host::decode(Insn::call_host(0, 0, u8::MAX)).host_fn, 0);
    assert_eq!(
        call_host::decode(Insn::call_host(1, 2, 3)),
        call_host { host_fn: 1, start_reg: 2, argc: 3 }
    );

    assert_eq!(call_opnd::decode(Insn::call_opnd(0, 0, (1 << 24) - 1)).argc, 0);
    assert_eq!(call_opnd::decode(Insn::call_opnd(0, u8::MAX, 0)).cache, 0);

    let host = Insn::call_method_host(1, 2, 3, 4);
    assert_eq!(
        call_method_host::decode(host),
        call_method_host { start_reg: 1, argc: 2, type_tag: 3, cache: 4 }
    );
    let opnds = call_method::decode(Insn::call_method(1, 2, 4));
    assert_eq!((opnds.start_reg, opnds.argc, opnds.cache), (1, 2, 4));
}

#[test]
fn narrow_operand_kinds()
{
    assert!(Insn::fits(1, 1, false));
    assert!(!Insn::fits(2, 1, false));
    assert!(Insn::fits(7, 3, false));
    assert!(!Insn::fits(8, 3, false));
    assert!(Insn::fits(15, 4, false));
    assert!(!Insn::fits(16, 4, false));
    assert!(Insn::fits(31, 5, false));
    assert!(!Insn::fits(32, 5, false));
    assert!(Insn::fits(63, 6, false));
    assert!(!Insn::fits(64, 6, false));
    assert!(Insn::fits(4095, 12, false));
    assert!(!Insn::fits(4096, 12, false));
    assert!(Insn::fits((1 << 24) - 1, 24, false));
    assert!(!Insn::fits(1 << 24, 24, false));
    assert!(Insn::fits(-8, 4, true));
    assert!(!Insn::fits(-9, 4, true));
}

#[test]
fn u32_operand()
{
    let insn = Insn::get_global(3, u32::MAX);
    assert_eq!(get_global::decode(insn), get_global { dst: 3, idx: u32::MAX });
}

#[test]
fn opcode_metadata()
{
    assert_eq!(Opcode::add.num_opnds(), 3);
    assert_eq!(Opcode::add.num_outs(), 1);
    assert_eq!(Opcode::jlt.num_opnds(), 3);
    assert_eq!(Opcode::jlt.num_outs(), 0);
    assert_eq!(Opcode::ret_nil.num_opnds(), 0);
}

#[test]
fn opcode_names()
{
    assert_eq!(Opcode::from_str("add"), Some(Opcode::add));
    assert_eq!(Opcode::from_str("nope"), None);
    assert_eq!(Opcode::add.name(), "add");
}

#[test]
fn opcode_codes_round_trip()
{
    for c in 0..NUM_OPCODES as u8 {
        let op = Opcode::from_u8(c);
        assert_eq!(op.code(), c);
        assert_eq!(Opcode::from_str(op.name()), Some(op));
    }
}

#[test]
fn opcode_sits_in_low_byte()
{
    // The opcode sits in the low byte of every instruction word
    assert_eq!(Insn::ret_nil().word_u64() & 0xFF, Opcode::ret_nil as u64);
    assert_eq!(Insn::jmp(-1).branch_disp(), Some(-1));
    assert_eq!(Insn::jmp(-1).opcode(), Opcode::jmp);
}
