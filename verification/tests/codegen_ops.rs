use jvm_codegen::class_file::{CpInfo, Generator, TextSource};
use jvm_codegen::codegen::{
    generate_function, load_arg_value, store_value, ArgType, CodegenError, Missing,
};
use jvm_codegen::ir::{Arg, Binop, Loc, Op, OpWithLocation};

fn loc(line: i32) -> Loc {
    Loc { line_number: line, line_offset: 1 }
}

fn at(line: i32, opcode: Op) -> OpWithLocation {
    OpWithLocation { opcode, loc: loc(line) }
}

#[test]
fn load_small_literals_use_iconst() {
    let mut gen = Generator::new();
    let mut out = Vec::new();
    let locals = Vec::new();
    for v in 0u64..=5 {
        let t = load_arg_value(&Arg::Literal(v), &mut out, loc(1), &mut gen, &locals);
        assert_eq!(t, Ok(ArgType::Integer));
    }
    assert_eq!(out, vec![0x03u8, 0x04, 0x05, 0x06, 0x07, 0x08]);
    assert!(gen.constant_pool().is_empty());
}

#[test]
fn load_int_literal_uses_ldc_and_the_pool() {
    let mut gen = Generator::new();
    let mut out = Vec::new();
    let locals = Vec::new();
    assert_eq!(
        load_arg_value(&Arg::Literal(100), &mut out, loc(1), &mut gen, &locals),
        Ok(ArgType::Integer)
    );
    assert_eq!(
        load_arg_value(&Arg::Literal(100), &mut out, loc(1), &mut gen, &locals),
        Ok(ArgType::Integer)
    );
    assert_eq!(out, vec![0x12u8, 1, 0x12, 1]);
    assert_eq!(gen.constant_pool().len(), 1);
    assert_eq!(gen.constant_pool()[0], CpInfo::Integer { value: 100 });
}

#[test]
fn load_large_literal_uses_ldc2_w_and_a_long() {
    let mut gen = Generator::new();
    let mut out = Vec::new();
    let locals = Vec::new();
    assert_eq!(
        load_arg_value(&Arg::Literal(0x8000_0000), &mut out, loc(1), &mut gen, &locals),
        Ok(ArgType::Long)
    );
    assert_eq!(out, vec![0x14u8, 0, 1]);
    assert_eq!(gen.constant_pool()[0], CpInfo::Long { value: 0x8000_0000 });
    assert_eq!(
        load_arg_value(&Arg::Literal(0x7FFF_FFFF), &mut out, loc(1), &mut gen, &locals),
        Ok(ArgType::Integer)
    );
    assert_eq!(out, vec![0x14u8, 0, 1, 0x12, 2]);
}

#[test]
fn load_literal_above_i64_max_is_missing() {
    let mut gen = Generator::new();
    let mut out = Vec::new();
    let locals = Vec::new();
    assert_eq!(
        load_arg_value(&Arg::Literal(u64::MAX), &mut out, loc(7), &mut gen, &locals),
        Err(CodegenError { loc: loc(7), missing: Missing::LiteralTooLarge })
    );
}

#[test]
fn load_auto_vars_by_type() {
    let mut gen = Generator::new();
    let mut out = Vec::new();
    let mut locals = vec![ArgType::Integer, ArgType::Long, ArgType::String, ArgType::Integer];
    locals.push(ArgType::Integer);
    locals.push(ArgType::String);
    for i in 1usize..=6 {
        let t = load_arg_value(&Arg::AutoVar(i), &mut out, loc(1), &mut gen, &locals);
        assert_eq!(t, Ok(locals[i - 1]));
    }
    assert_eq!(out, vec![0x1au8, 0x1f, 0x2c, 0x1d, 0x15, 4, 0x19, 5]);
}

#[test]
fn load_unsupported_args_are_missing() {
    let mut gen = Generator::new();
    let mut out = Vec::new();
    let locals = vec![ArgType::Integer];
    let cases = vec![
        (Arg::External(b"x".to_vec()), Missing::LoadExternal),
        (Arg::Deref(1), Missing::LoadDeref),
        (Arg::RefAutoVar(1), Missing::LoadRefAutoVar),
        (Arg::RefExternal(b"y".to_vec()), Missing::LoadRefExternal),
    ];
    for (arg, m) in cases {
        assert_eq!(
            load_arg_value(&arg, &mut out, loc(3), &mut gen, &locals),
            Err(CodegenError { loc: loc(3), missing: m })
        );
    }
}

#[test]
fn store_int_records_the_type() {
    let mut out = Vec::new();
    let mut locals = vec![ArgType::Uninitialized; 6];
    assert_eq!(store_value(1, &mut out, loc(1), ArgType::Integer, &mut locals), Ok(()));
    assert_eq!(store_value(6, &mut out, loc(1), ArgType::Integer, &mut locals), Ok(()));
    assert_eq!(out, vec![0x3bu8, 0x36, 5]);
    assert_eq!(locals[0], ArgType::Integer);
    assert_eq!(locals[5], ArgType::Integer);
    assert_eq!(locals[1], ArgType::Uninitialized);
}

#[test]
fn store_string_keeps_the_recorded_type() {
    let mut out = Vec::new();
    let mut locals = vec![ArgType::Uninitialized; 2];
    assert_eq!(store_value(2, &mut out, loc(1), ArgType::String, &mut locals), Ok(()));
    assert_eq!(store_value(9, &mut out, loc(1), ArgType::String, &mut locals), Ok(()));
    assert_eq!(out, vec![0x4cu8, 0x3a, 8]);
    assert_eq!(locals, vec![ArgType::Uninitialized; 2]);
}

#[test]
fn store_long_is_missing() {
    let mut out = Vec::new();
    let mut locals = vec![ArgType::Uninitialized; 2];
    assert_eq!(
        store_value(1, &mut out, loc(4), ArgType::Long, &mut locals),
        Err(CodegenError { loc: loc(4), missing: Missing::StoreLong })
    );
}

#[test]
fn generate_function_encodes_a_method() {
    let mut gen = Generator::new();
    let body = vec![
        at(1, Op::AutoAssign { index: 1, arg: Arg::Literal(2) }),
        at(
            2,
            Op::Binop { binop: Binop::Plus, index: 2, lhs: Arg::AutoVar(1), rhs: Arg::Literal(300) },
        ),
    ];
    assert_eq!(generate_function(b"main", 1, 2, &body, &mut gen), Ok(()));
    let pool = gen.constant_pool();
    assert_eq!(pool.len(), 4);
    assert_eq!(pool[0], CpInfo::Utf8 { value: b"main".to_vec(), source: TextSource::Own(0) });
    assert_eq!(
        pool[1],
        CpInfo::Utf8 { value: b"()V".to_vec(), source: TextSource::VoidDescriptor }
    );
    assert_eq!(
        pool[2],
        CpInfo::Utf8 { value: b"Code".to_vec(), source: TextSource::CodeAttributeName }
    );
    assert_eq!(pool[3], CpInfo::Integer { value: 300 });
    let code = vec![0x05u8, 0x3b, 0x1a, 0x12, 4, 0x60, 0x3c];
    let mut expected = vec![0u8, 9, 0, 1, 0, 2, 0, 1, 0, 3];
    expected.extend_from_slice(&[0, 0, 0, 19]);
    expected.extend_from_slice(&[0, 3, 0, 3]);
    expected.extend_from_slice(&[0, 0, 0, 7]);
    expected.extend_from_slice(&code);
    expected.extend_from_slice(&[0, 0, 0, 0]);
    assert_eq!(gen.functions().len(), 1);
    assert_eq!(gen.functions()[0], expected);
}

#[test]
fn generate_function_reports_the_first_missing_op() {
    let mut gen = Generator::new();
    let body = vec![
        at(1, Op::AutoAssign { index: 1, arg: Arg::Literal(2) }),
        at(5, Op::Label { label: 0 }),
        at(6, Op::Return { arg: None }),
    ];
    assert_eq!(
        generate_function(b"f", 0, 1, &body, &mut gen),
        Err(CodegenError { loc: loc(5), missing: Missing::Label })
    );
}

#[test]
fn generate_function_binop_other_than_plus_is_missing() {
    let mut gen = Generator::new();
    let body = vec![at(
        3,
        Op::Binop { binop: Binop::Minus, index: 1, lhs: Arg::Literal(1), rhs: Arg::Literal(2) },
    )];
    assert_eq!(
        generate_function(b"f", 0, 1, &body, &mut gen),
        Err(CodegenError { loc: loc(3), missing: Missing::Binop })
    );
}

#[test]
fn generate_function_each_missing_op() {
    let cases = vec![
        (Op::UnaryNot { result: 1, arg: Arg::Literal(0) }, Missing::UnaryNot),
        (Op::Negate { result: 1, arg: Arg::Literal(0) }, Missing::Negate),
        (Op::Asm { args: Vec::new() }, Missing::Asm),
        (Op::ExternalAssign { name: b"g".to_vec(), arg: Arg::Literal(0) }, Missing::ExternalAssign),
        (Op::Store { index: 1, arg: Arg::Literal(0) }, Missing::Store),
        (Op::Funcall { result: 1, fun: Arg::Literal(0), args: Vec::new() }, Missing::Funcall),
        (Op::JmpLabel { label: 1 }, Missing::JmpLabel),
        (Op::JmpIfNotLabel { label: 1, arg: Arg::Literal(0) }, Missing::JmpIfNotLabel),
        (Op::Return { arg: None }, Missing::Return),
    ];
    for (op, m) in cases {
        let mut gen = Generator::new();
        let body = vec![at(9, op)];
        assert_eq!(
            generate_function(b"f", 0, 1, &body, &mut gen),
            Err(CodegenError { loc: loc(9), missing: m })
        );
    }
}

#[test]
fn assigning_a_large_literal_stops_at_the_long_store() {
    let mut gen = Generator::new();
    let body = vec![at(2, Op::AutoAssign { index: 1, arg: Arg::Literal(1u64 << 40) })];
    assert_eq!(
        generate_function(b"f", 0, 1, &body, &mut gen),
        Err(CodegenError { loc: loc(2), missing: Missing::StoreLong })
    );
}
