use jvm_codegen::class_file::{get_or_create_cp_info_index, CpInfo, Generator, TextSource};
use jvm_codegen::codegen::{
    generate_body, generate_funcs, generate_header, generate_program,
    generate_strings_from_data_section, load_arg_value, program_is_defined, ArgType,
    CodegenError, Missing,
};
use jvm_codegen::ir::{Arg, Compiler, Func, Loc, Op, OpWithLocation};

fn loc(line: i32) -> Loc {
    Loc { line_number: line, line_offset: 1 }
}

fn text(s: &[u8], source: TextSource) -> CpInfo {
    CpInfo::Utf8 { value: s.to_vec(), source }
}

fn func(name: &[u8], params: usize, autos: usize, ops: Vec<Op>) -> Func {
    Func {
        name: name.to_vec(),
        params_count: params,
        auto_vars_count: autos,
        body: ops.into_iter().map(|opcode| OpWithLocation { opcode, loc: loc(1) }).collect(),
    }
}

fn utf8_bytes(s: &[u8]) -> Vec<u8> {
    let mut v = vec![1u8, 0, s.len() as u8];
    v.extend_from_slice(s);
    v
}

#[test]
fn header_is_magic_and_version() {
    let mut out = vec![0xAAu8];
    generate_header(&mut out);
    assert_eq!(out, vec![0xAAu8, 0xCA, 0xFE, 0xBA, 0xBE, 0, 0, 0, 51]);
}

#[test]
fn data_section_strings_go_into_the_pool() {
    let mut gen = Generator::new();
    let mut out = vec![7u8];
    generate_strings_from_data_section(&mut out, b"hi\0yo\0tail", &mut gen);
    assert_eq!(out, vec![7u8]);
    let pool = gen.constant_pool();
    assert_eq!(pool.len(), 4);
    assert_eq!(pool[0], text(b"hi", TextSource::Own(0)));
    assert_eq!(pool[1], CpInfo::String { string_index: 1 });
    assert_eq!(pool[2], text(b"yo", TextSource::Own(2)));
    assert_eq!(pool[3], CpInfo::String { string_index: 3 });
    assert_eq!(gen.strings(), &vec![(0usize, 2u16), (3, 4)]);
}

#[test]
fn equal_strings_get_entries_of_their_own() {
    let mut gen = Generator::new();
    let mut out = Vec::new();
    generate_strings_from_data_section(&mut out, b"ab\0ab\0\0", &mut gen);
    let pool = gen.constant_pool();
    assert_eq!(pool.len(), 6);
    assert_eq!(pool[0], text(b"ab", TextSource::Own(0)));
    assert_eq!(pool[2], text(b"ab", TextSource::Own(2)));
    assert_eq!(pool[4], text(b"", TextSource::Own(4)));
    assert_eq!(gen.strings(), &vec![(0usize, 2u16), (3, 4), (6, 6)]);
}

#[test]
fn a_function_named_like_a_fixed_string_gets_its_own_entry() {
    let mut gen = Generator::new();
    let funcs = vec![func(b"Code", 0, 0, vec![]), func(b"()V", 0, 0, vec![])];
    assert_eq!(generate_funcs(&funcs, &mut gen), Ok(()));
    let pool = gen.constant_pool();
    assert_eq!(pool.len(), 4);
    assert_eq!(pool[0], text(b"Code", TextSource::Own(0)));
    assert_eq!(pool[1], text(b"()V", TextSource::VoidDescriptor));
    assert_eq!(pool[2], text(b"Code", TextSource::CodeAttributeName));
    assert_eq!(pool[3], text(b"()V", TextSource::Own(3)));
    assert_eq!(&gen.functions()[1][2..6], &[0u8, 4, 0, 2]);
}

#[test]
fn a_data_string_like_a_name_gets_its_own_entry() {
    let c = Compiler {
        data: b"main\0Hello\0".to_vec(),
        funcs: vec![func(b"main", 0, 0, vec![])],
    };
    let mut out = Vec::new();
    assert_eq!(generate_program(&mut out, &c), Ok(()));
    assert_eq!(&out[8..10], &[0u8, 12]);
}

#[test]
fn data_offset_loads_each_recorded_string() {
    let mut gen = Generator::new();
    let mut out = Vec::new();
    generate_strings_from_data_section(&mut out, b"ab\0cd\0", &mut gen);
    let locals: Vec<ArgType> = Vec::new();
    assert_eq!(
        load_arg_value(&Arg::DataOffset(3), &mut out, loc(1), &mut gen, &locals),
        Ok(ArgType::String)
    );
    assert_eq!(out, vec![0x12u8, 4]);
    assert_eq!(
        load_arg_value(&Arg::DataOffset(1), &mut out, loc(1), &mut gen, &locals),
        Ok(ArgType::String)
    );
    assert_eq!(out, vec![0x12u8, 4]);
}

#[test]
fn body_of_an_empty_class() {
    let mut gen = Generator::new();
    let mut out = Vec::new();
    generate_body(&mut out, &mut gen);
    let mut expected = vec![0u8, 5];
    expected.extend(utf8_bytes(b"java/lang/Object"));
    expected.extend_from_slice(&[7, 0, 1]);
    expected.extend(utf8_bytes(b"Hello"));
    expected.extend_from_slice(&[7, 0, 3]);
    expected.extend_from_slice(&[0, 0x20, 0, 4, 0, 2, 0, 0, 0, 0, 0, 0, 0, 0]);
    assert_eq!(out, expected);
}

#[test]
fn body_reuses_existing_entries() {
    let mut gen = Generator::new();
    get_or_create_cp_info_index(&mut gen, text(b"Hello", TextSource::ThisClassName));
    let mut out = Vec::new();
    generate_body(&mut out, &mut gen);
    assert_eq!(gen.constant_pool().len(), 4);
    assert_eq!(&out[out.len() - 12..out.len() - 8], &[0u8, 4, 0, 3]);
}

#[test]
fn generate_funcs_in_order() {
    let mut gen = Generator::new();
    let funcs = vec![
        func(b"a", 0, 0, vec![]),
        func(b"b", 0, 1, vec![Op::AutoAssign { index: 1, arg: Arg::Literal(0) }]),
    ];
    assert_eq!(generate_funcs(&funcs, &mut gen), Ok(()));
    assert_eq!(gen.functions().len(), 2);
    assert_eq!(gen.constant_pool().len(), 4);
    assert_eq!(&gen.functions()[0][2..4], &[0u8, 1]);
    assert_eq!(&gen.functions()[1][2..4], &[0u8, 4]);
}

#[test]
fn generate_funcs_stops_at_the_first_error() {
    let mut gen = Generator::new();
    let funcs = vec![
        func(b"a", 0, 0, vec![Op::Return { arg: None }]),
        func(b"b", 0, 0, vec![Op::Label { label: 1 }]),
    ];
    assert_eq!(
        generate_funcs(&funcs, &mut gen),
        Err(CodegenError { loc: loc(1), missing: Missing::Return })
    );
}

#[test]
fn whole_program_class_file() {
    let c = Compiler {
        data: b"hi\0".to_vec(),
        funcs: vec![func(b"main", 0, 1, vec![Op::AutoAssign { index: 1, arg: Arg::Literal(2) }])],
    };
    assert!(program_is_defined(&c));
    let mut out = Vec::new();
    assert_eq!(generate_program(&mut out, &c), Ok(()));
    let mut expected = vec![0xCAu8, 0xFE, 0xBA, 0xBE, 0, 0, 0, 51, 0, 10];
    expected.extend(utf8_bytes(b"hi"));
    expected.extend_from_slice(&[8, 0, 1]);
    expected.extend(utf8_bytes(b"main"));
    expected.extend(utf8_bytes(b"()V"));
    expected.extend(utf8_bytes(b"Code"));
    expected.extend(utf8_bytes(b"java/lang/Object"));
    expected.extend_from_slice(&[7, 0, 6]);
    expected.extend(utf8_bytes(b"Hello"));
    expected.extend_from_slice(&[7, 0, 8]);
    expected.extend_from_slice(&[0, 0x20, 0, 9, 0, 7, 0, 0, 0, 0, 0, 1]);
    expected.extend_from_slice(&[0, 9, 0, 3, 0, 4, 0, 1, 0, 5, 0, 0, 0, 14, 0, 1, 0, 1]);
    expected.extend_from_slice(&[0, 0, 0, 2, 0x05, 0x3b, 0, 0, 0, 0]);
    expected.extend_from_slice(&[0, 0]);
    assert_eq!(out, expected);
}

#[test]
fn program_with_missing_op_reports_it() {
    let c = Compiler {
        data: Vec::new(),
        funcs: vec![func(b"main", 0, 0, vec![Op::JmpLabel { label: 3 }])],
    };
    assert!(program_is_defined(&c));
    let mut out = Vec::new();
    assert_eq!(
        generate_program(&mut out, &c),
        Err(CodegenError { loc: loc(1), missing: Missing::JmpLabel })
    );
}

#[test]
fn programs_outside_the_domain_are_detected() {
    let bogus = Compiler { data: Vec::new(), funcs: vec![func(b"f", 0, 0, vec![Op::Bogus])] };
    assert!(!program_is_defined(&bogus));
    let uninit = Compiler {
        data: Vec::new(),
        funcs: vec![func(b"f", 0, 2, vec![Op::AutoAssign { index: 1, arg: Arg::AutoVar(2) }])],
    };
    assert!(!program_is_defined(&uninit));
    let out_of_range = Compiler {
        data: Vec::new(),
        funcs: vec![func(b"f", 0, 1, vec![Op::AutoAssign { index: 2, arg: Arg::Literal(1) }])],
    };
    assert!(!program_is_defined(&out_of_range));
    let bogus_arg = Compiler {
        data: Vec::new(),
        funcs: vec![func(b"f", 0, 1, vec![Op::AutoAssign { index: 1, arg: Arg::Bogus }])],
    };
    assert!(!program_is_defined(&bogus_arg));
}

#[test]
fn an_error_before_the_undefined_op_wins() {
    let c = Compiler {
        data: Vec::new(),
        funcs: vec![func(b"f", 0, 0, vec![Op::Return { arg: None }, Op::Bogus])],
    };
    assert!(program_is_defined(&c));
}
