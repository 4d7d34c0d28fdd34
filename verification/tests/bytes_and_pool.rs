use jvm_codegen::bytes::{write_byte, write_dword, write_word};
use jvm_codegen::class_file::{
    cp_info_eq, da_index_of, get_or_create_cp_info_index, write_cp_info, CpInfo, Generator,
    TextSource,
};

fn text(s: &str, source: TextSource) -> CpInfo {
    CpInfo::Utf8 { value: s.as_bytes().to_vec(), source }
}

fn utf8(s: &str) -> CpInfo {
    text(s, TextSource::Own(0))
}

#[test]
fn write_byte_appends_one_byte() {
    let mut out = vec![9u8];
    write_byte(&mut out, 0xAB);
    assert_eq!(out, vec![9u8, 0xAB]);
}

#[test]
fn write_word_is_big_endian() {
    let mut out = Vec::new();
    write_word(&mut out, 0x1234);
    write_word(&mut out, 0x00FF);
    assert_eq!(out, vec![0x12u8, 0x34, 0x00, 0xFF]);
}

#[test]
fn write_dword_is_big_endian() {
    let mut out = Vec::new();
    write_dword(&mut out, 0xCAFEBABE);
    write_dword(&mut out, 0x0102_0304);
    assert_eq!(out, vec![0xCAu8, 0xFE, 0xBA, 0xBE, 1, 2, 3, 4]);
}

#[test]
fn write_cp_info_utf8() {
    let mut out = Vec::new();
    write_cp_info(&mut out, &utf8("Hi"));
    assert_eq!(out, vec![1u8, 0, 2, b'H', b'i']);
}

#[test]
fn write_cp_info_numbers() {
    let mut out = Vec::new();
    write_cp_info(&mut out, &CpInfo::Integer { value: -1 });
    write_cp_info(&mut out, &CpInfo::Long { value: 0x1_0000_0002 });
    assert_eq!(out, vec![3u8, 0xFF, 0xFF, 0xFF, 0xFF, 5, 0, 0, 0, 1, 0, 0, 0, 2]);
}

#[test]
fn write_cp_info_negative_long() {
    let mut out = Vec::new();
    write_cp_info(&mut out, &CpInfo::Long { value: -2 });
    assert_eq!(out, vec![5u8, 0xFF, 0xFF, 0xFF, 0xFF, 0xFF, 0xFF, 0xFF, 0xFE]);
}

#[test]
fn write_cp_info_references() {
    let mut out = Vec::new();
    write_cp_info(&mut out, &CpInfo::Class { name_index: 7 });
    write_cp_info(&mut out, &CpInfo::String { string_index: 0x0102 });
    write_cp_info(&mut out, &CpInfo::Methodref { class_index: 3, name_and_type_index: 4 });
    write_cp_info(&mut out, &CpInfo::NameAndType { name_index: 5, type_index: 6 });
    assert_eq!(
        out,
        vec![7u8, 0, 7, 8, 1, 2, 10, 0, 3, 0, 4, 12, 0, 5, 0, 6]
    );
}

#[test]
fn cp_info_eq_compares_text_by_place() {
    assert!(cp_info_eq(&text("a", TextSource::Own(3)), &text("b", TextSource::Own(3))));
    assert!(!cp_info_eq(&text("a", TextSource::Own(3)), &text("a", TextSource::Own(4))));
    assert!(!cp_info_eq(
        &text("Code", TextSource::CodeAttributeName),
        &text("Code", TextSource::Own(0))
    ));
    assert!(!cp_info_eq(&CpInfo::Class { name_index: 1 }, &CpInfo::String { string_index: 1 }));
    assert!(cp_info_eq(&CpInfo::Integer { value: 5 }, &CpInfo::Integer { value: 5 }));
    assert!(!cp_info_eq(&CpInfo::Long { value: 5 }, &CpInfo::Integer { value: 5 }));
}

#[test]
fn da_index_of_finds_first() {
    let xs = vec![
        text("a", TextSource::Own(0)),
        CpInfo::Integer { value: 1 },
        text("a", TextSource::Own(2)),
        CpInfo::Integer { value: 1 },
    ];
    assert_eq!(da_index_of(&xs, &text("a", TextSource::Own(0))), Some(0));
    assert_eq!(da_index_of(&xs, &text("a", TextSource::Own(2))), Some(2));
    assert_eq!(da_index_of(&xs, &CpInfo::Integer { value: 1 }), Some(1));
    assert_eq!(da_index_of(&xs, &text("a", TextSource::Own(1))), None);
    assert_eq!(da_index_of(&Vec::new(), &utf8("a")), None);
}

#[test]
fn get_or_create_numbers_from_one_and_reuses() {
    let mut gen = Generator::new();
    assert_eq!(get_or_create_cp_info_index(&mut gen, text("main", TextSource::Own(0))), 1);
    assert_eq!(get_or_create_cp_info_index(&mut gen, text("Code", TextSource::CodeAttributeName)), 2);
    assert_eq!(get_or_create_cp_info_index(&mut gen, text("main", TextSource::Own(0))), 1);
    assert_eq!(get_or_create_cp_info_index(&mut gen, text("Code", TextSource::Own(2))), 3);
    assert_eq!(get_or_create_cp_info_index(&mut gen, CpInfo::String { string_index: 1 }), 4);
    assert_eq!(gen.constant_pool().len(), 4);
    assert_eq!(gen.constant_pool()[1], text("Code", TextSource::CodeAttributeName));
    assert_eq!(gen.constant_pool()[2], text("Code", TextSource::Own(2)));
}

#[test]
fn new_generator_is_empty() {
    let gen = Generator::new();
    assert!(gen.constant_pool().is_empty());
    assert!(gen.functions().is_empty());
    assert!(gen.strings().is_empty());
}

#[test]
fn can_intern_checks_room_and_place() {
    let mut gen = Generator::new();
    assert!(gen.can_intern(&text("x", TextSource::Own(0))));
    assert!(!gen.can_intern(&text("x", TextSource::Own(1))));
    assert!(!gen.can_intern(&text("x", TextSource::CodeAttributeName)));
    assert!(gen.can_intern(&text("Code", TextSource::CodeAttributeName)));
    get_or_create_cp_info_index(&mut gen, text("x", TextSource::Own(0)));
    assert!(gen.can_intern(&text("x", TextSource::Own(0))));
    assert!(gen.can_intern(&text("y", TextSource::Own(1))));
}
