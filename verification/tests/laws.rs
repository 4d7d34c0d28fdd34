use jvm_codegen::bytes::{write_dword, write_word};
use jvm_codegen::class_file::{get_or_create_cp_info_index, write_cp_info, CpInfo, Generator, TextSource};
use jvm_codegen::codegen::{
    generate_body, generate_function, generate_program, generate_strings_from_data_section,
    load_arg_value, store_value, ArgType,
};
use jvm_codegen::ir::{Arg, Compiler, Loc};

fn loc() -> Loc {
    Loc { line_number: 1, line_offset: 1 }
}

fn index_at(bytes: &[u8], at: usize) -> usize {
    bytes[at] as usize * 256 + bytes[at + 1] as usize
}

#[test]
fn interning_twice_gives_the_same_index() {
    let mut gen = Generator::new();
    let first = get_or_create_cp_info_index(&mut gen, CpInfo::Integer { value: 42 });
    let second = get_or_create_cp_info_index(&mut gen, CpInfo::Integer { value: 42 });
    assert_eq!(first, second);
    assert_eq!(gen.constant_pool().len(), 1);
}

#[test]
fn different_entries_get_different_indices() {
    let mut gen = Generator::new();
    let a = get_or_create_cp_info_index(&mut gen, CpInfo::Class { name_index: 1 });
    let b = get_or_create_cp_info_index(&mut gen, CpInfo::String { string_index: 1 });
    assert_ne!(a, b);
    assert_eq!(gen.constant_pool()[a as usize - 1], CpInfo::Class { name_index: 1 });
}

#[test]
fn words_read_back() {
    for w in [0u16, 1, 255, 256, 0xBEEF, u16::MAX] {
        let mut out = Vec::new();
        write_word(&mut out, w);
        assert_eq!(index_at(&out, 0), w as usize);
    }
    for d in [0u32, 0x0102_0304, u32::MAX] {
        let mut out = Vec::new();
        write_dword(&mut out, d);
        assert_eq!(u32::from_be_bytes([out[0], out[1], out[2], out[3]]), d);
    }
}

#[test]
fn different_entries_encode_differently() {
    let entries = vec![
        CpInfo::Utf8 { value: b"ab".to_vec(), source: TextSource::Own(0) },
        CpInfo::Utf8 { value: b"ba".to_vec(), source: TextSource::Own(0) },
        CpInfo::Integer { value: 7 },
        CpInfo::Long { value: 7 },
        CpInfo::Class { name_index: 7 },
        CpInfo::String { string_index: 7 },
        CpInfo::Methodref { class_index: 7, name_and_type_index: 8 },
        CpInfo::NameAndType { name_index: 7, type_index: 8 },
    ];
    let encoded: Vec<Vec<u8>> = entries
        .iter()
        .map(|e| {
            let mut out = Vec::new();
            write_cp_info(&mut out, e);
            out
        })
        .collect();
    for i in 0..encoded.len() {
        for j in 0..encoded.len() {
            assert_eq!(i == j, encoded[i] == encoded[j]);
        }
    }
}

#[test]
fn an_int_stored_loads_back_from_the_same_slot() {
    let mut gen = Generator::new();
    let mut locals = vec![ArgType::Uninitialized; 5];
    let mut out = Vec::new();
    store_value(5, &mut out, loc(), ArgType::Integer, &mut locals).unwrap();
    assert_eq!(out, vec![0x36u8, 4]);
    let mut out2 = Vec::new();
    assert_eq!(
        load_arg_value(&Arg::AutoVar(5), &mut out2, loc(), &mut gen, &locals),
        Ok(ArgType::Integer)
    );
    assert_eq!(out2, vec![0x15u8, 4]);
    assert!(gen.constant_pool().is_empty());
}

#[test]
fn every_string_record_resolves_to_its_bytes() {
    let data = b"one\0two\0one\0";
    let mut gen = Generator::new();
    let mut out = Vec::new();
    generate_strings_from_data_section(&mut out, data, &mut gen);
    let pool = gen.constant_pool();
    for &(offset, string_index) in gen.strings().iter() {
        let utf_index = match &pool[string_index as usize - 1] {
            CpInfo::String { string_index } => *string_index,
            _ => panic!("not a String entry"),
        };
        let value = match &pool[utf_index as usize - 1] {
            CpInfo::Utf8 { value, .. } => value.clone(),
            _ => panic!("not a Utf8 entry"),
        };
        let end = offset + value.len();
        assert_eq!(&data[offset..end], &value[..]);
        assert_eq!(data[end], 0);
    }
    assert_eq!(gen.strings().len(), 3);
}

#[test]
fn method_indices_name_its_entries() {
    let mut gen = Generator::new();
    get_or_create_cp_info_index(&mut gen, CpInfo::Integer { value: 9 });
    generate_function(b"run", 0, 0, &[], &mut gen).unwrap();
    let m = &gen.functions()[0];
    let pool = gen.constant_pool();
    let text_of = |i: usize| match &pool[i - 1] {
        CpInfo::Utf8 { value, .. } => value.clone(),
        _ => panic!("not a Utf8 entry"),
    };
    assert_eq!(index_at(m, 2), 2);
    assert_eq!(text_of(index_at(m, 2)), b"run".to_vec());
    assert_eq!(text_of(index_at(m, 4)), b"()V".to_vec());
    assert_eq!(text_of(index_at(m, 8)), b"Code".to_vec());
    assert_eq!(pool[0], CpInfo::Integer { value: 9 });
}

#[test]
fn body_names_this_class_and_its_superclass() {
    let mut gen = Generator::new();
    let mut out = Vec::new();
    generate_body(&mut out, &mut gen);
    let pool = gen.constant_pool();
    let mut pool_len = 0;
    for e in pool.iter() {
        let mut b = Vec::new();
        write_cp_info(&mut b, e);
        pool_len += b.len();
    }
    let at = 2 + pool_len;
    let this_class = index_at(&out, at + 2);
    let super_class = index_at(&out, at + 4);
    let class_name = |i: usize| match &pool[i - 1] {
        CpInfo::Class { name_index } => match &pool[*name_index as usize - 1] {
            CpInfo::Utf8 { value, .. } => value.clone(),
            _ => panic!("not a Utf8 entry"),
        },
        _ => panic!("not a Class entry"),
    };
    assert_eq!(class_name(this_class), b"Hello".to_vec());
    assert_eq!(class_name(super_class), b"java/lang/Object".to_vec());
}

#[test]
fn class_files_begin_with_the_magic_number() {
    let c = Compiler { data: b"x\0".to_vec(), funcs: Vec::new() };
    let mut out = Vec::new();
    generate_program(&mut out, &c).unwrap();
    assert_eq!(&out[..8], &[0xCAu8, 0xFE, 0xBA, 0xBE, 0, 0, 0, 51]);
}
