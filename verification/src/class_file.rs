//! The constant pool of a class file and the generator state that collects it.
use vstd::prelude::*;
use crate::bytes::{be16, be32, write_byte, write_dword, write_word};

verus! {

/// Tag byte of a `CONSTANT_Utf8` entry.
pub const CONSTANT_UTF8: u8 = 1;
/// Tag byte of a `CONSTANT_Integer` entry.
pub const CONSTANT_INTEGER: u8 = 3;
/// Tag byte of a `CONSTANT_Long` entry.
pub const CONSTANT_LONG: u8 = 5;
/// Tag byte of a `CONSTANT_Class` entry.
pub const CONSTANT_CLASS: u8 = 7;
/// Tag byte of a `CONSTANT_String` entry.
pub const CONSTANT_STRING: u8 = 8;
/// Tag byte of a `CONSTANT_Methodref` entry.
pub const CONSTANT_METHODREF: u8 = 10;
/// Tag byte of a `CONSTANT_NameAndType` entry.
pub const CONSTANT_NAMEANDTYPE: u8 = 12;

/// Entries are numbered from 1 by a `u16`, so a pool holds at most this many.
pub const MAX_CONSTANT_POOL_ENTRIES: usize = 65535;

/// Where the bytes of a text entry are kept. The pool tells text entries
/// apart by where their bytes are kept, not by the bytes: two text entries are
/// the same entry when their bytes come from the same place.
#[derive(Clone, Copy, Debug, PartialEq, Eq, Structural)]
pub enum TextSource {
    /// The method descriptor `()V` that every method gets.
    VoidDescriptor,
    /// `Code`, the name of the attribute that holds a method's bytecode.
    CodeAttributeName,
    /// `java/lang/Object`, the name of the superclass.
    ObjectClassName,
    /// `Hello`, the name of the generated class.
    ThisClassName,
    /// A string kept on its own (a function's name, a string of the data
    /// section), whose entry is the one at this (0-based) pool position.
    Own(usize),
}

/// The descriptor `()V` of a method without parameters or result.
pub open spec fn void_descriptor() -> Seq<u8> {
    seq![0x28u8, 0x29u8, 0x56u8]
}

/// `Code`
pub open spec fn code_attribute_name() -> Seq<u8> {
    seq![0x43u8, 0x6fu8, 0x64u8, 0x65u8]
}

/// `java/lang/Object`
pub open spec fn object_class_name() -> Seq<u8> {
    seq![
        0x6au8, 0x61u8, 0x76u8, 0x61u8, 0x2fu8, 0x6cu8, 0x61u8, 0x6eu8, 0x67u8, 0x2fu8,
        0x4fu8, 0x62u8, 0x6au8, 0x65u8, 0x63u8, 0x74u8,
    ]
}

/// `Hello`
pub open spec fn this_class_name() -> Seq<u8> {
    seq![0x48u8, 0x65u8, 0x6cu8, 0x6cu8, 0x6fu8]
}

/// The bytes kept at one of the generator's own places.
pub open spec fn fixed_text(source: TextSource) -> Seq<u8> {
    match source {
        TextSource::VoidDescriptor => void_descriptor(),
        TextSource::CodeAttributeName => code_attribute_name(),
        TextSource::ObjectClassName => object_class_name(),
        TextSource::ThisClassName => this_class_name(),
        TextSource::Own(_) => seq![],
    }
}

/// The bytes kept at one of the generator's own places.
pub fn fixed_text_bytes(source: TextSource) -> (bytes: Vec<u8>)
    requires
        !(source is Own),
    ensures
        bytes@ == fixed_text(source),
{
    let bytes = match source {
        TextSource::VoidDescriptor => vec![0x28u8, 0x29u8, 0x56u8],
        TextSource::CodeAttributeName => vec![0x43u8, 0x6fu8, 0x64u8, 0x65u8],
        TextSource::ObjectClassName => vec![
            0x6au8, 0x61u8, 0x76u8, 0x61u8, 0x2fu8, 0x6cu8, 0x61u8, 0x6eu8, 0x67u8, 0x2fu8,
            0x4fu8, 0x62u8, 0x6au8, 0x65u8, 0x63u8, 0x74u8,
        ],
        TextSource::ThisClassName => vec![0x48u8, 0x65u8, 0x6cu8, 0x6cu8, 0x6fu8],
        TextSource::Own(_) => Vec::new(),
    };
    assert(bytes@ =~= fixed_text(source));
    bytes
}

/// One entry of the constant pool.
#[derive(Clone, Debug, PartialEq, Eq)]
pub enum CpInfo {
    /// A string, held as its bytes (without a terminating zero byte) and the
    /// place they are kept.
    Utf8 { value: Vec<u8>, source: TextSource },
    Integer { value: i32 },
    Long { value: i64 },
    Class { name_index: u16 },
    String { string_index: u16 },
    Methodref { class_index: u16, name_and_type_index: u16 },
    NameAndType { name_index: u16, type_index: u16 },
}

/// The mathematical model of a constant-pool entry.
pub enum CpInfoView {
    Utf8 { value: Seq<u8>, source: TextSource },
    Integer { value: i32 },
    Long { value: i64 },
    Class { name_index: u16 },
    String { string_index: u16 },
    Methodref { class_index: u16, name_and_type_index: u16 },
    NameAndType { name_index: u16, type_index: u16 },
}

impl View for CpInfo {
    type V = CpInfoView;

    open spec fn view(&self) -> CpInfoView {
        match self {
            CpInfo::Utf8 { value, source } => CpInfoView::Utf8 { value: value@, source: *source },
            CpInfo::Integer { value } => CpInfoView::Integer { value: *value },
            CpInfo::Long { value } => CpInfoView::Long { value: *value },
            CpInfo::Class { name_index } => CpInfoView::Class { name_index: *name_index },
            CpInfo::String { string_index } => CpInfoView::String { string_index: *string_index },
            CpInfo::Methodref { class_index, name_and_type_index } => CpInfoView::Methodref {
                class_index: *class_index,
                name_and_type_index: *name_and_type_index,
            },
            CpInfo::NameAndType { name_index, type_index } => CpInfoView::NameAndType {
                name_index: *name_index,
                type_index: *type_index,
            },
        }
    }
}

/// The bytes of one `cp_info` structure of the class-file format: the tag,
/// then the payload. A string is written as its length (taken modulo 2^16)
/// and its bytes.
pub open spec fn cp_info_bytes(c: CpInfoView) -> Seq<u8> {
    match c {
        CpInfoView::Utf8 { value, .. } => seq![CONSTANT_UTF8] + be16(value.len() as u16) + value,
        CpInfoView::Integer { value } => seq![CONSTANT_INTEGER] + be32(value as u32),
        CpInfoView::Long { value } => seq![CONSTANT_LONG] + be32((value >> 32) as u32) + be32(
            value as u32,
        ),
        CpInfoView::Class { name_index } => seq![CONSTANT_CLASS] + be16(name_index),
        CpInfoView::String { string_index } => seq![CONSTANT_STRING] + be16(string_index),
        CpInfoView::Methodref { class_index, name_and_type_index } => seq![CONSTANT_METHODREF]
            + be16(class_index) + be16(name_and_type_index),
        CpInfoView::NameAndType { name_index, type_index } => seq![CONSTANT_NAMEANDTYPE] + be16(
            name_index,
        ) + be16(type_index),
    }
}

/// Whether two byte strings are equal.
fn bytes_eq(a: &Vec<u8>, b: &Vec<u8>) -> (equal: bool)
    ensures
        equal == (a@ == b@),
{
    if a.len() != b.len() {
        return false;
    }
    let n = a.len();
    let mut i: usize = 0;
    while i < n
        invariant
            n == a.len() == b.len(),
            i <= n,
            forall|j: int| 0 <= j < i ==> a@[j] == b@[j],
        decreases n - i,
    {
        if a[i] != b[i] {
            return false;
        }
        i = i + 1;
    }
    assert(a@ =~= b@);
    true
}

/// Whether the pool takes `a` and `b` for one entry: text entries when their
/// bytes are kept at the same place, other entries when they are equal.
pub open spec fn same_entry(a: CpInfoView, b: CpInfoView) -> bool {
    match a {
        CpInfoView::Utf8 { source: sa, .. } => match b {
            CpInfoView::Utf8 { source: sb, .. } => sa == sb,
            _ => false,
        },
        _ => a == b,
    }
}

/// Whether the pool takes `a` and `b` for one entry. Text entries are
/// compared by where their bytes are kept, not by the bytes.
pub fn cp_info_eq(a: &CpInfo, b: &CpInfo) -> (equal: bool)
    ensures
        equal == same_entry(a@, b@),
{
    match (a, b) {
        (CpInfo::Utf8 { source: x, .. }, CpInfo::Utf8 { source: y, .. }) => *x == *y,
        (CpInfo::Integer { value: x }, CpInfo::Integer { value: y }) => *x == *y,
        (CpInfo::Long { value: x }, CpInfo::Long { value: y }) => *x == *y,
        (CpInfo::Class { name_index: x }, CpInfo::Class { name_index: y }) => *x == *y,
        (CpInfo::String { string_index: x }, CpInfo::String { string_index: y }) => *x == *y,
        (
            CpInfo::Methodref { class_index: x1, name_and_type_index: x2 },
            CpInfo::Methodref { class_index: y1, name_and_type_index: y2 },
        ) => *x1 == *y1 && *x2 == *y2,
        (
            CpInfo::NameAndType { name_index: x1, type_index: x2 },
            CpInfo::NameAndType { name_index: y1, type_index: y2 },
        ) => *x1 == *y1 && *x2 == *y2,
        _ => false,
    }
}

/// The position of the first entry of `xs` that is the same entry as `item`.
pub fn da_index_of(xs: &Vec<CpInfo>, item: &CpInfo) -> (found: Option<usize>)
    ensures
        match found {
            Some(i) => i < xs.len() && same_entry(xs@[i as int]@, item@) && forall|j: int|
                0 <= j < i ==> !same_entry(xs@[j]@, item@),
            None => forall|j: int| 0 <= j < xs.len() ==> !same_entry(xs@[j]@, item@),
        },
{
    let n = xs.len();
    let mut i: usize = 0;
    while i < n
        invariant
            n == xs.len(),
            i <= n,
            forall|j: int| 0 <= j < i ==> !same_entry(xs@[j]@, item@),
        decreases n - i,
    {
        if cp_info_eq(&xs[i], item) {
            return Some(i);
        }
        i = i + 1;
    }
    None
}

/// The state a class file is generated in: the constant pool, the encoded
/// methods, and where each string of the data section stands in the pool.
pub struct Generator {
    constant_pool: Vec<CpInfo>,
    functions: Vec<Vec<u8>>,
    /// (offset in the data section, constant-pool index of its `String` entry)
    strings: Vec<(usize, u16)>,
}

/// The mathematical model of a [`Generator`].
pub struct GeneratorView {
    pub constant_pool: Seq<CpInfoView>,
    pub functions: Seq<Seq<u8>>,
    pub strings: Seq<(usize, u16)>,
}

impl View for Generator {
    type V = GeneratorView;

    closed spec fn view(&self) -> GeneratorView {
        GeneratorView {
            constant_pool: self.constant_pool@.map_values(|c: CpInfo| c@),
            functions: self.functions@.map_values(|f: Vec<u8>| f@),
            strings: self.strings@,
        }
    }
}

impl GeneratorView {
    /// The pool fits the `u16` numbering, holds no entry twice, and each
    /// text entry agrees with its place.
    pub open spec fn wf(self) -> bool {
        let pool = self.constant_pool;
        &&& pool.len() <= MAX_CONSTANT_POOL_ENTRIES
        &&& forall|i: int, j: int|
            0 <= i < pool.len() && 0 <= j < pool.len() && i != j ==> !same_entry(
                #[trigger] pool[i],
                #[trigger] pool[j],
            )
        &&& forall|i: int| 0 <= i < pool.len() ==> text_in_place(#[trigger] pool[i], i)
    }

    /// The pool holds an entry that it takes for `c`.
    pub open spec fn holds(self, c: CpInfoView) -> bool {
        exists|i: int| 0 <= i < self.constant_pool.len() && same_entry(self.constant_pool[i], c)
    }

    /// The position of the entry that the pool takes for `c`.
    pub open spec fn position_of(self, c: CpInfoView) -> int {
        choose|i: int| 0 <= i < self.constant_pool.len() && same_entry(self.constant_pool[i], c)
    }

    /// `c` is in the pool already, or there is room to add it and, if it is
    /// text, its place agrees with the position it would take.
    pub open spec fn can_intern(self, c: CpInfoView) -> bool {
        ||| self.holds(c)
        ||| self.constant_pool.len() < MAX_CONSTANT_POOL_ENTRIES && text_in_place(
            c,
            self.constant_pool.len() as int,
        )
    }

    /// The state after looking `c` up in the pool, adding it at the end when
    /// it is not there, and the (1-based) index of `c`'s entry in the pool.
    pub open spec fn intern(self, c: CpInfoView) -> (GeneratorView, u16) {
        if self.holds(c) {
            (self, (self.position_of(c) + 1) as u16)
        } else {
            (
                GeneratorView {
                    constant_pool: self.constant_pool.push(c),
                    functions: self.functions,
                    strings: self.strings,
                },
                (self.constant_pool.len() + 1) as u16,
            )
        }
    }

    /// Everything this state holds stays in `later`, at the same places:
    /// `later` only has more pool entries, methods and string records at the
    /// ends.
    pub open spec fn precedes(self, later: GeneratorView) -> bool {
        &&& self.constant_pool.is_prefix_of(later.constant_pool)
        &&& self.functions.is_prefix_of(later.functions)
        &&& self.strings.is_prefix_of(later.strings)
    }

    pub open spec fn with_function(self, f: Seq<u8>) -> GeneratorView {
        GeneratorView {
            constant_pool: self.constant_pool,
            functions: self.functions.push(f),
            strings: self.strings,
        }
    }

    pub open spec fn with_string(self, s: (usize, u16)) -> GeneratorView {
        GeneratorView {
            constant_pool: self.constant_pool,
            functions: self.functions,
            strings: self.strings.push(s),
        }
    }
}

/// A text entry kept at the generator's own place holds that place's bytes,
/// and one kept on its own sits at the position its place names.
pub open spec fn text_in_place(c: CpInfoView, at: int) -> bool {
    match c {
        CpInfoView::Utf8 { value, source } => match source {
            TextSource::Own(k) => k == at,
            _ => value == fixed_text(source),
        },
        _ => true,
    }
}

/// A state precedes itself.
pub proof fn lemma_precedes_refl(g: GeneratorView)
    ensures
        g.precedes(g),
{
    assert(g.constant_pool =~= g.constant_pool.subrange(0, g.constant_pool.len() as int));
    assert(g.functions =~= g.functions.subrange(0, g.functions.len() as int));
    assert(g.strings =~= g.strings.subrange(0, g.strings.len() as int));
}

/// Growing twice is growing.
pub proof fn lemma_precedes_trans(a: GeneratorView, b: GeneratorView, c: GeneratorView)
    requires
        a.precedes(b),
        b.precedes(c),
    ensures
        a.precedes(c),
{
    assert(a.constant_pool =~= c.constant_pool.subrange(0, a.constant_pool.len() as int));
    assert(a.functions =~= c.functions.subrange(0, a.functions.len() as int));
    assert(a.strings =~= c.strings.subrange(0, a.strings.len() as int));
}

/// The state of a generator that has generated nothing yet.
pub open spec fn empty_generator() -> GeneratorView {
    GeneratorView { constant_pool: seq![], functions: seq![], strings: seq![] }
}

impl Generator {
    /// A generator with an empty constant pool, no methods and no strings.
    pub fn new() -> (gen: Generator)
        ensures
            gen@ == empty_generator(),
            gen@.wf(),
    {
        let gen = Generator { constant_pool: Vec::new(), functions: Vec::new(), strings: Vec::new() };
        assert(gen@.constant_pool =~= seq![]);
        assert(gen@.functions =~= seq![]);
        gen
    }

    /// The constant pool, entry 1 first.
    pub fn constant_pool(&self) -> (pool: &Vec<CpInfo>)
        ensures
            pool@.map_values(|c: CpInfo| c@) == self@.constant_pool,
    {
        &self.constant_pool
    }

    /// The encoded `method_info` structures, in the order they were generated.
    pub fn functions(&self) -> (functions: &Vec<Vec<u8>>)
        ensures
            functions@.map_values(|f: Vec<u8>| f@) == self@.functions,
    {
        &self.functions
    }

    /// The strings of the data section: each one's offset and the index of
    /// its `String` entry in the pool.
    pub fn strings(&self) -> (strings: &Vec<(usize, u16)>)
        ensures
            strings@ == self@.strings,
    {
        &self.strings
    }

    /// Whether `c` is in the pool already or there is room to add it in its
    /// place.
    pub fn can_intern(&self, c: &CpInfo) -> (yes: bool)
        ensures
            yes == self@.can_intern(c@),
    {
        match da_index_of(&self.constant_pool, c) {
            Some(i) => {
                assert(same_entry(self@.constant_pool[i as int], c@));
                true
            },
            None => {
                assert(!self@.holds(c@));
                let len = self.constant_pool.len();
                if len >= MAX_CONSTANT_POOL_ENTRIES {
                    return false;
                }
                match c {
                    CpInfo::Utf8 { value, source } => match source {
                        TextSource::Own(k) => *k == len,
                        _ => bytes_eq(value, &fixed_text_bytes(*source)),
                    },
                    _ => true,
                }
            },
        }
    }

    pub(crate) fn push_function(&mut self, f: Vec<u8>)
        ensures
            final(self)@ == old(self)@.with_function(f@),
            old(self)@.precedes(final(self)@),
    {
        self.functions.push(f);
        assert(self@.functions =~= old(self)@.functions.push(f@));
        proof {
            lemma_precedes_refl(old(self)@);
        }
    }

    pub(crate) fn push_string(&mut self, s: (usize, u16))
        ensures
            final(self)@ == old(self)@.with_string(s),
            old(self)@.precedes(final(self)@),
    {
        self.strings.push(s);
        proof {
            lemma_precedes_refl(old(self)@);
        }
    }
}

/// The index of `info`'s entry in the constant pool, counted from 1; `info`
/// is added at the end of the pool when the pool holds no entry it takes for
/// `info`. Text entries are looked up by where their bytes are kept, not by
/// their bytes (see [`TextSource`]).
pub fn get_or_create_cp_info_index(gen: &mut Generator, info: CpInfo) -> (index: u16)
    requires
        old(gen)@.wf(),
        old(gen)@.can_intern(info@),
    ensures
        final(gen)@.wf(),
        (final(gen)@, index) == old(gen)@.intern(info@),
        old(gen)@.precedes(final(gen)@),
{
    let ghost pool = old(gen)@.constant_pool;
    proof {
        lemma_precedes_refl(old(gen)@);
    }
    match da_index_of(&gen.constant_pool, &info) {
        Some(i) => {
            proof {
                assert(same_entry(pool[i as int], info@));
                assert(old(gen)@.holds(info@));
                let j = old(gen)@.position_of(info@);
                assert(0 <= j < pool.len() && same_entry(pool[j], info@));
                if j != i {
                    assert(!same_entry(pool[i as int], pool[j]));
                }
                assert(j == i);
            }
            i as u16 + 1
        },
        None => {
            assert(!old(gen)@.holds(info@));
            gen.constant_pool.push(info);
            assert(gen@.constant_pool =~= pool.push(info@));
            proof {
                let p2 = gen@.constant_pool;
                assert forall|i: int, j: int|
                    0 <= i < p2.len() && 0 <= j < p2.len() && i != j implies !same_entry(
                    p2[i],
                    p2[j],
                ) by {
                    if i == pool.len() as int {
                        assert(!same_entry(pool[j], info@));
                    } else if j == pool.len() as int {
                        assert(!same_entry(pool[i], info@));
                    }
                }
                assert forall|i: int| 0 <= i < p2.len() implies text_in_place(p2[i], i) by {
                    if i < pool.len() {
                        assert(p2[i] == pool[i]);
                    }
                }
            }
            gen.constant_pool.len() as u16
        },
    }
}

/// Appends the `cp_info` structure of `cp_info` to `output`.
pub fn write_cp_info(output: &mut Vec<u8>, cp_info: &CpInfo)
    ensures
        final(output)@ == old(output)@ + cp_info_bytes(cp_info@),
{
    match cp_info {
        CpInfo::Utf8 { value, .. } => {
            write_byte(output, CONSTANT_UTF8);
            write_word(output, value.len() as u16);
            let ghost before = output@;
            let n = value.len();
            let mut i: usize = 0;
            while i < n
                invariant
                    n == value.len(),
                    i <= n,
                    output@ == before + value@.take(i as int),
                decreases n - i,
            {
                output.push(value[i]);
                i = i + 1;
                assert(output@ =~= before + value@.take(i as int));
            }
            assert(value@.take(n as int) =~= value@);
        },
        CpInfo::Integer { value } => {
            write_byte(output, CONSTANT_INTEGER);
            write_dword(output, *value as u32);
        },
        CpInfo::Long { value } => {
            write_byte(output, CONSTANT_LONG);
            write_dword(output, (*value >> 32) as u32);
            write_dword(output, *value as u32);
        },
        CpInfo::Class { name_index } => {
            write_byte(output, CONSTANT_CLASS);
            write_word(output, *name_index);
        },
        CpInfo::String { string_index } => {
            write_byte(output, CONSTANT_STRING);
            write_word(output, *string_index);
        },
        CpInfo::Methodref { class_index, name_and_type_index } => {
            write_byte(output, CONSTANT_METHODREF);
            write_word(output, *class_index);
            write_word(output, *name_and_type_index);
        },
        CpInfo::NameAndType { name_index, type_index } => {
            write_byte(output, CONSTANT_NAMEANDTYPE);
            write_word(output, *name_index);
            write_word(output, *type_index);
        },
    }
    assert(output@ =~= old(output)@ + cp_info_bytes(cp_info@));
}

} // verus!
