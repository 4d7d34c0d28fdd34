//! Translation of the compiler's functions into JVM bytecode and of the whole
//! program into a class file.
use vstd::prelude::*;
use crate::bytes::{be16, be32, write_byte, write_dword, write_word};
use crate::class_file::{
    CpInfo, CpInfoView, Generator, GeneratorView, TextSource, code_attribute_name, cp_info_bytes,
    empty_generator, fixed_text_bytes, get_or_create_cp_info_index, lemma_precedes_refl,
    lemma_precedes_trans, object_class_name, this_class_name, void_descriptor, write_cp_info,
};
use crate::ir::{Arg, Binop, Compiler, Func, Loc, Op, OpWithLocation};

verus! {

/// `iconst_0`; `iconst_<n>` is `ICONST_0 + n` for `n` up to 5.
pub const ICONST_0: u8 = 0x03;
/// `ldc`: push a constant whose pool index fits a byte.
pub const LDC: u8 = 0x12;
/// `ldc2_w`: push a `long` or `double` constant.
pub const LDC2_W: u8 = 0x14;
pub const ILOAD: u8 = 0x15;
pub const LLOAD: u8 = 0x16;
pub const ALOAD: u8 = 0x19;
pub const ILOAD_0: u8 = 0x1a;
pub const LLOAD_0: u8 = 0x1e;
pub const ALOAD_0: u8 = 0x2a;
pub const ISTORE: u8 = 0x36;
pub const ASTORE: u8 = 0x3a;
pub const ISTORE_0: u8 = 0x3b;
pub const ASTORE_0: u8 = 0x4b;
pub const IADD: u8 = 0x60;

/// Literals below this are pushed as `int` constants.
pub const INT_LITERAL_LIMIT: u64 = 0x8000_0000;
/// The largest literal that a `long` constant holds.
pub const LONG_LITERAL_MAX: u64 = 0x7fff_ffff_ffff_ffff;

/// What the generator knows of the value in a local variable slot.
#[derive(Clone, Copy, Debug, PartialEq, Eq, Structural)]
pub enum ArgType {
    Uninitialized,
    Integer,
    Long,
    String,
}

/// A construct that this back end does not translate.
#[derive(Clone, Copy, Debug, PartialEq, Eq, Structural)]
pub enum Missing {
    /// A literal above `i64::MAX`.
    LiteralTooLarge,
    LoadExternal,
    LoadDeref,
    LoadRefAutoVar,
    LoadRefExternal,
    /// Storing a `long` into a local variable.
    StoreLong,
    UnaryNot,
    Negate,
    Asm,
    /// A binary operator other than `+`.
    Binop,
    ExternalAssign,
    Store,
    Funcall,
    Label,
    JmpLabel,
    JmpIfNotLabel,
    Return,
}

/// Generation stopped at `loc` on a construct it does not translate.
#[derive(Clone, Copy, Debug, PartialEq, Eq, Structural)]
pub struct CodegenError {
    pub loc: Loc,
    pub missing: Missing,
}

/// How a generation step can fail: on an untranslated construct, or on an
/// input outside its domain (an operand that no finished program holds, a
/// read of a variable that was never written, a slot out of range, a
/// constant pool that is full).
#[derive(Clone, Copy, Debug, PartialEq, Eq, Structural)]
pub enum Fault {
    Missing(CodegenError),
    Undefined,
}

pub open spec fn missing<T>(loc: Loc, m: Missing) -> Result<T, Fault> {
    Err(Fault::Missing(CodegenError { loc, missing: m }))
}

/// The instruction that loads or stores local `slot`: the one-byte form
/// `short_base + slot` for the first four slots, else `long_op` and the slot
/// number (taken modulo 256).
pub open spec fn local_insn(short_base: u8, long_op: u8, slot: usize) -> Seq<u8> {
    if slot <= 3 {
        seq![(short_base + slot) as u8]
    } else {
        seq![long_op, slot as u8]
    }
}

/// The `ldc` instructions that push the strings recorded at data offset
/// `offset`, one for each record, in order.
pub open spec fn string_loads(strings: Seq<(usize, u16)>, offset: usize) -> Seq<u8>
    decreases strings.len(),
{
    if strings.len() == 0 {
        seq![]
    } else {
        (if strings[0].0 == offset {
            seq![LDC, strings[0].1 as u8]
        } else {
            seq![]
        }) + string_loads(strings.drop_first(), offset)
    }
}

/// Loading `arg` onto the operand stack: the bytes of the instructions, the
/// generator after it, and what the loaded value is.
pub open spec fn spec_load_arg(arg: Arg, loc: Loc, gen: GeneratorView, locals: Seq<ArgType>) -> Result<
    (Seq<u8>, GeneratorView, ArgType),
    Fault,
> {
    match arg {
        Arg::Literal(v) => {
            if v <= 5 {
                Ok((seq![(ICONST_0 + v) as u8], gen, ArgType::Integer))
            } else if v < INT_LITERAL_LIMIT {
                let c = CpInfoView::Integer { value: v as i32 };
                if gen.can_intern(c) {
                    let (g, index) = gen.intern(c);
                    Ok((seq![LDC, index as u8], g, ArgType::Integer))
                } else {
                    Err(Fault::Undefined)
                }
            } else if v <= LONG_LITERAL_MAX {
                let c = CpInfoView::Long { value: v as i64 };
                if gen.can_intern(c) {
                    let (g, index) = gen.intern(c);
                    Ok((seq![LDC2_W] + be16(index), g, ArgType::Long))
                } else {
                    Err(Fault::Undefined)
                }
            } else {
                missing(loc, Missing::LiteralTooLarge)
            }
        },
        Arg::AutoVar(index) => {
            if 1 <= index <= locals.len() {
                let slot = (index - 1) as usize;
                match locals[slot as int] {
                    ArgType::Integer => Ok((local_insn(ILOAD_0, ILOAD, slot), gen, ArgType::Integer)),
                    ArgType::Long => Ok((local_insn(LLOAD_0, LLOAD, slot), gen, ArgType::Long)),
                    ArgType::String => Ok((local_insn(ALOAD_0, ALOAD, slot), gen, ArgType::String)),
                    ArgType::Uninitialized => Err(Fault::Undefined),
                }
            } else {
                Err(Fault::Undefined)
            }
        },
        Arg::External(_) => missing(loc, Missing::LoadExternal),
        Arg::Deref(_) => missing(loc, Missing::LoadDeref),
        Arg::RefAutoVar(_) => missing(loc, Missing::LoadRefAutoVar),
        Arg::RefExternal(_) => missing(loc, Missing::LoadRefExternal),
        Arg::DataOffset(offset) => Ok((string_loads(gen.strings, offset), gen, ArgType::String)),
        Arg::Bogus => Err(Fault::Undefined),
    }
}

/// Storing the value on top of the stack, of type `t`, into automatic
/// variable `index` (numbered from 1): the bytes and the new local types.
/// A stored string leaves the local's recorded type as it was.
pub open spec fn spec_store_value(index: usize, t: ArgType, loc: Loc, locals: Seq<ArgType>) -> Result<
    (Seq<u8>, Seq<ArgType>),
    Fault,
> {
    match t {
        ArgType::Integer => {
            if 1 <= index <= locals.len() {
                let slot = (index - 1) as usize;
                Ok((local_insn(ISTORE_0, ISTORE, slot), locals.update(slot as int, ArgType::Integer)))
            } else {
                Err(Fault::Undefined)
            }
        },
        ArgType::Long => missing(loc, Missing::StoreLong),
        ArgType::String => {
            if 1 <= index {
                Ok((local_insn(ASTORE_0, ASTORE, (index - 1) as usize), locals))
            } else {
                Err(Fault::Undefined)
            }
        },
        ArgType::Uninitialized => Err(Fault::Undefined),
    }
}

/// Appends the instruction for local `slot`.
fn write_local_insn(output: &mut Vec<u8>, short_base: u8, long_op: u8, slot: usize)
    requires
        short_base <= 252,
    ensures
        final(output)@ == old(output)@ + local_insn(short_base, long_op, slot),
{
    if slot <= 3 {
        write_byte(output, short_base + slot as u8);
    } else {
        write_byte(output, long_op);
        write_byte(output, slot as u8);
    }
    assert(output@ =~= old(output)@ + local_insn(short_base, long_op, slot));
}

fn load_arg_core(
    arg: &Arg,
    output: &mut Vec<u8>,
    loc: Loc,
    gen: &mut Generator,
    local_types: &Vec<ArgType>,
) -> (r: Result<ArgType, Fault>)
    requires
        old(gen)@.wf(),
    ensures
        final(gen)@.wf(),
        match spec_load_arg(*arg, loc, old(gen)@, local_types@) {
            Ok((bytes, g, t)) => r == Ok::<ArgType, Fault>(t) && final(output)@ == old(output)@
                + bytes && final(gen)@ == g,
            Err(f) => r == Err::<ArgType, Fault>(f),
        },
        old(gen)@.precedes(final(gen)@),
        final(gen)@.functions == old(gen)@.functions,
        final(gen)@.strings == old(gen)@.strings,
        r is Err ==> final(output)@ == old(output)@ && final(gen)@ == old(gen)@,
{
    proof {
        lemma_precedes_refl(old(gen)@);
    }
    match arg {
        Arg::Literal(value) => {
            let v = *value;
            if v <= 5 {
                write_byte(output, ICONST_0 + v as u8);
                Ok(ArgType::Integer)
            } else if v < INT_LITERAL_LIMIT {
                let c = CpInfo::Integer { value: v as i32 };
                if !gen.can_intern(&c) {
                    return Err(Fault::Undefined);
                }
                write_byte(output, LDC);
                let index = get_or_create_cp_info_index(gen, c);
                write_byte(output, index as u8);
                assert(output@ =~= old(output)@ + seq![LDC, index as u8]);
                Ok(ArgType::Integer)
            } else if v <= LONG_LITERAL_MAX {
                let c = CpInfo::Long { value: v as i64 };
                if !gen.can_intern(&c) {
                    return Err(Fault::Undefined);
                }
                write_byte(output, LDC2_W);
                let index = get_or_create_cp_info_index(gen, c);
                write_word(output, index);
                assert(output@ =~= old(output)@ + (seq![LDC2_W] + be16(index)));
                Ok(ArgType::Long)
            } else {
                Err(Fault::Missing(CodegenError { loc, missing: Missing::LiteralTooLarge }))
            }
        },
        Arg::AutoVar(index) => {
            let index = *index;
            if index == 0 || index > local_types.len() {
                return Err(Fault::Undefined);
            }
            let slot = index - 1;
            let t = local_types[slot];
            match t {
                ArgType::Integer => write_local_insn(output, ILOAD_0, ILOAD, slot),
                ArgType::Long => write_local_insn(output, LLOAD_0, LLOAD, slot),
                ArgType::String => write_local_insn(output, ALOAD_0, ALOAD, slot),
                ArgType::Uninitialized => {
                    return Err(Fault::Undefined);
                },
            }
            Ok(t)
        },
        Arg::External(_) => Err(Fault::Missing(CodegenError { loc, missing: Missing::LoadExternal })),
        Arg::Deref(_) => Err(Fault::Missing(CodegenError { loc, missing: Missing::LoadDeref })),
        Arg::RefAutoVar(_) => Err(
            Fault::Missing(CodegenError { loc, missing: Missing::LoadRefAutoVar }),
        ),
        Arg::RefExternal(_) => Err(
            Fault::Missing(CodegenError { loc, missing: Missing::LoadRefExternal }),
        ),
        Arg::DataOffset(offset) => {
            let offset = *offset;
            let strings = gen.strings();
            let n = strings.len();
            let mut i: usize = 0;
            assert(strings@.skip(0) =~= strings@);
            while i < n
                invariant
                    n == strings@.len(),
                    i <= n,
                    old(output)@ + string_loads(strings@, offset) == output@ + string_loads(
                        strings@.skip(i as int),
                        offset,
                    ),
                decreases n - i,
            {
                let (o, s) = strings[i];
                let ghost rest = strings@.skip(i as int);
                let ghost before = output@;
                assert(rest.drop_first() =~= strings@.skip(i + 1));
                assert(rest[0] == (o, s));
                if o == offset {
                    write_byte(output, LDC);
                    write_byte(output, s as u8);
                    assert(output@ =~= before + seq![LDC, s as u8]);
                }
                assert(before + string_loads(rest, offset) =~= output@ + string_loads(
                    strings@.skip(i + 1),
                    offset,
                ));
                i = i + 1;
            }
            assert(strings@.skip(n as int) =~= seq![]);
            assert(output@ + string_loads(seq![], offset) =~= output@);
            Ok(ArgType::String)
        },
        Arg::Bogus => Err(Fault::Undefined),
    }
}

fn store_value_core(
    auto_var_index: usize,
    output: &mut Vec<u8>,
    loc: Loc,
    arg_type: ArgType,
    local_types: &mut Vec<ArgType>,
) -> (r: Result<(), Fault>)
    ensures
        match spec_store_value(auto_var_index, arg_type, loc, old(local_types)@) {
            Ok((bytes, l)) => r == Ok::<(), Fault>(()) && final(output)@ == old(output)@ + bytes
                && final(local_types)@ == l,
            Err(f) => r == Err::<(), Fault>(f),
        },
        r is Err ==> final(output)@ == old(output)@ && final(local_types)@ == old(local_types)@,
{
    match arg_type {
        ArgType::Integer => {
            if auto_var_index == 0 || auto_var_index > local_types.len() {
                return Err(Fault::Undefined);
            }
            let slot = auto_var_index - 1;
            write_local_insn(output, ISTORE_0, ISTORE, slot);
            local_types.set(slot, ArgType::Integer);
            Ok(())
        },
        ArgType::Long => Err(Fault::Missing(CodegenError { loc, missing: Missing::StoreLong })),
        ArgType::String => {
            if auto_var_index == 0 {
                return Err(Fault::Undefined);
            }
            write_local_insn(output, ASTORE_0, ASTORE, auto_var_index - 1);
            Ok(())
        },
        ArgType::Uninitialized => Err(Fault::Undefined),
    }
}

/// Generating one operation: the bytes of its code, the generator after it,
/// and the local types after it.
pub open spec fn spec_op(op: OpWithLocation, gen: GeneratorView, locals: Seq<ArgType>) -> Result<
    (Seq<u8>, GeneratorView, Seq<ArgType>),
    Fault,
> {
    let loc = op.loc;
    match op.opcode {
        Op::Bogus => Err(Fault::Undefined),
        Op::UnaryNot { .. } => missing(loc, Missing::UnaryNot),
        Op::Negate { .. } => missing(loc, Missing::Negate),
        Op::Asm { .. } => missing(loc, Missing::Asm),
        Op::Binop { binop, index, lhs, rhs } => match spec_load_arg(lhs, loc, gen, locals) {
            Err(f) => Err(f),
            Ok((c1, g1, _)) => match spec_load_arg(rhs, loc, g1, locals) {
                Err(f) => Err(f),
                Ok((c2, g2, _)) => {
                    if binop == Binop::Plus {
                        match spec_store_value(index, ArgType::Integer, loc, locals) {
                            Err(f) => Err(f),
                            Ok((c3, l3)) => Ok((c1 + c2 + seq![IADD] + c3, g2, l3)),
                        }
                    } else {
                        missing(loc, Missing::Binop)
                    }
                },
            },
        },
        Op::AutoAssign { index, arg } => match spec_load_arg(arg, loc, gen, locals) {
            Err(f) => Err(f),
            Ok((c1, g1, t)) => match spec_store_value(index, t, loc, locals) {
                Err(f) => Err(f),
                Ok((c2, l2)) => Ok((c1 + c2, g1, l2)),
            },
        },
        Op::ExternalAssign { .. } => missing(loc, Missing::ExternalAssign),
        Op::Store { .. } => missing(loc, Missing::Store),
        Op::Funcall { .. } => missing(loc, Missing::Funcall),
        Op::Label { .. } => missing(loc, Missing::Label),
        Op::JmpLabel { .. } => missing(loc, Missing::JmpLabel),
        Op::JmpIfNotLabel { .. } => missing(loc, Missing::JmpIfNotLabel),
        Op::Return { .. } => missing(loc, Missing::Return),
    }
}

/// `r` with `code` put in front of the code it holds.
pub open spec fn prepend_code(code: Seq<u8>, r: Result<(Seq<u8>, GeneratorView, Seq<ArgType>), Fault>) -> Result<
    (Seq<u8>, GeneratorView, Seq<ArgType>),
    Fault,
> {
    match r {
        Ok((c, g, l)) => Ok((code + c, g, l)),
        Err(f) => Err(f),
    }
}

/// Generating the operations of `body` in order; the first that fails stops
/// the generation.
pub open spec fn spec_ops(body: Seq<OpWithLocation>, gen: GeneratorView, locals: Seq<ArgType>) -> Result<
    (Seq<u8>, GeneratorView, Seq<ArgType>),
    Fault,
>
    decreases body.len(),
{
    if body.len() == 0 {
        Ok((seq![], gen, locals))
    } else {
        match spec_op(body[0], gen, locals) {
            Err(f) => Err(f),
            Ok((c, g, l)) => prepend_code(c, spec_ops(body.drop_first(), g, l)),
        }
    }
}

pub(crate) proof fn lemma_prepend_code_assoc(
    a: Seq<u8>,
    b: Seq<u8>,
    r: Result<(Seq<u8>, GeneratorView, Seq<ArgType>), Fault>,
)
    ensures
        prepend_code(a, prepend_code(b, r)) == prepend_code(a + b, r),
{
    match r {
        Ok((c, g, l)) => {
            assert(a + (b + c) =~= (a + b) + c);
        },
        Err(_) => {},
    }
}

/// `ACC_PUBLIC | ACC_STATIC`
pub const METHOD_ACCESS_FLAGS: u16 = 0x0009;

/// A `method_info` structure with one `Code` attribute around `code`, with
/// no exception table and no attributes of its own. Its maximal stack depth
/// is written as `max_locals` too.
pub open spec fn method_info(
    name_index: u16,
    descriptor_index: u16,
    code_name_index: u16,
    max_locals: u16,
    code: Seq<u8>,
) -> Seq<u8> {
    be16(METHOD_ACCESS_FLAGS) + be16(name_index) + be16(descriptor_index) + be16(1) + be16(
        code_name_index,
    ) + be32((code.len() + 12) as u32) + be16(max_locals) + be16(max_locals) + be32(
        code.len() as u32,
    ) + code + be16(0) + be16(0)
}

/// The local types of a function whose `n` automatic variables were not
/// written yet.
pub open spec fn fresh_locals(n: usize) -> Seq<ArgType> {
    Seq::new(n as nat, |i: int| ArgType::Uninitialized)
}

/// Generating one function: its name, descriptor and the name `Code` go into
/// the pool in that order, then its body is generated, and its `method_info`
/// is added to the generator's methods.
pub open spec fn spec_generate_function(
    name: Seq<u8>,
    params_count: usize,
    auto_vars_count: usize,
    body: Seq<OpWithLocation>,
    gen: GeneratorView,
) -> Result<GeneratorView, Fault> {
    let n1 = CpInfoView::Utf8 {
        value: name,
        source: TextSource::Own(gen.constant_pool.len() as usize),
    };
    let n2 = CpInfoView::Utf8 { value: void_descriptor(), source: TextSource::VoidDescriptor };
    let n3 = CpInfoView::Utf8 {
        value: code_attribute_name(),
        source: TextSource::CodeAttributeName,
    };
    if !gen.can_intern(n1) {
        Err(Fault::Undefined)
    } else {
        let (g1, name_index) = gen.intern(n1);
        if !g1.can_intern(n2) {
            Err(Fault::Undefined)
        } else {
            let (g2, descriptor_index) = g1.intern(n2);
            if !g2.can_intern(n3) {
                Err(Fault::Undefined)
            } else {
                let (g3, code_name_index) = g2.intern(n3);
                finish_function(
                    spec_ops(body, g3, fresh_locals(auto_vars_count)),
                    name_index,
                    descriptor_index,
                    code_name_index,
                    params_count,
                    auto_vars_count,
                )
            }
        }
    }
}

/// After the body: the `method_info` of the function is added to the
/// generator's methods.
pub open spec fn finish_function(
    body_result: Result<(Seq<u8>, GeneratorView, Seq<ArgType>), Fault>,
    name_index: u16,
    descriptor_index: u16,
    code_name_index: u16,
    params_count: usize,
    auto_vars_count: usize,
) -> Result<GeneratorView, Fault> {
    match body_result {
        Err(f) => Err(f),
        Ok((code, g, _)) => {
            if params_count + auto_vars_count > usize::MAX {
                Err(Fault::Undefined)
            } else {
                Ok(
                    g.with_function(
                        method_info(
                            name_index,
                            descriptor_index,
                            code_name_index,
                            (params_count + auto_vars_count) as u16,
                            code,
                        ),
                    ),
                )
            }
        },
    }
}

fn generate_op(
    op: &OpWithLocation,
    code: &mut Vec<u8>,
    gen: &mut Generator,
    locals: &mut Vec<ArgType>,
) -> (r: Result<(), Fault>)
    requires
        old(gen)@.wf(),
    ensures
        final(gen)@.wf(),
        match spec_op(*op, old(gen)@, old(locals)@) {
            Ok((c, g, l)) => r == Ok::<(), Fault>(()) && final(code)@ == old(code)@ + c 
                && final(gen)@ == g && final(locals)@ == l,
            Err(f) => r == Err::<(), Fault>(f),
        },
        old(gen)@.precedes(final(gen)@),
        final(gen)@.functions == old(gen)@.functions,
        final(gen)@.strings == old(gen)@.strings,
{
    proof {
        lemma_precedes_refl(old(gen)@);
    }
    let loc = op.loc;
    match &op.opcode {
        Op::Bogus => Err(Fault::Undefined),
        Op::UnaryNot { .. } => Err(Fault::Missing(CodegenError { loc, missing: Missing::UnaryNot })),
        Op::Negate { .. } => Err(Fault::Missing(CodegenError { loc, missing: Missing::Negate })),
        Op::Asm { .. } => Err(Fault::Missing(CodegenError { loc, missing: Missing::Asm })),
        Op::Binop { binop, index, lhs, rhs } => {
            let ghost c0 = code@;
            match load_arg_core(lhs, code, loc, gen, locals) {
                Err(f) => {
                    return Err(f);
                },
                Ok(_) => {},
            }
            let ghost c1 = code@;
            let ghost g1 = gen@;
            match load_arg_core(rhs, code, loc, gen, locals) {
                Err(f) => {
                    return Err(f);
                },
                Ok(_) => {},
            }
            proof {
                lemma_precedes_trans(old(gen)@, g1, gen@);
            }
            let ghost c2 = code@;
            match binop {
                Binop::Plus => {
                    write_byte(code, IADD);
                    let r = store_value_core(*index, code, loc, ArgType::Integer, locals);
                    proof {
                        if r is Ok {
                            let c3 = code@.subrange(c2.len() as int + 1, code@.len() as int);
                            assert(code@ =~= c0 + c1.subrange(c0.len() as int, c1.len() as int)
                                + c2.subrange(c1.len() as int, c2.len() as int) + seq![IADD] + c3);
                        }
                    }
                    r
                },
                _ => Err(Fault::Missing(CodegenError { loc, missing: Missing::Binop })),
            }
        },
        Op::AutoAssign { index, arg } => {
            let t = match load_arg_core(arg, code, loc, gen, locals) {
                Err(f) => {
                    return Err(f);
                },
                Ok(t) => t,
            };
            let ghost c1 = code@;
            let r = store_value_core(*index, code, loc, t, locals);
            proof {
                if r is Ok {
                    assert(code@ =~= old(code)@ + c1.subrange(old(code)@.len() as int, c1.len() as int)
                        + code@.subrange(c1.len() as int, code@.len() as int));
                }
            }
            r
        },
        Op::ExternalAssign { .. } => Err(
            Fault::Missing(CodegenError { loc, missing: Missing::ExternalAssign }),
        ),
        Op::Store { .. } => Err(Fault::Missing(CodegenError { loc, missing: Missing::Store })),
        Op::Funcall { .. } => Err(Fault::Missing(CodegenError { loc, missing: Missing::Funcall })),
        Op::Label { .. } => Err(Fault::Missing(CodegenError { loc, missing: Missing::Label })),
        Op::JmpLabel { .. } => Err(Fault::Missing(CodegenError { loc, missing: Missing::JmpLabel })),
        Op::JmpIfNotLabel { .. } => Err(
            Fault::Missing(CodegenError { loc, missing: Missing::JmpIfNotLabel }),
        ),
        Op::Return { .. } => Err(Fault::Missing(CodegenError { loc, missing: Missing::Return })),
    }
}

/// A copy of `s`.
fn copy_bytes(s: &[u8]) -> (v: Vec<u8>)
    ensures
        v@ == s@,
{
    let mut v: Vec<u8> = Vec::new();
    let n = s.len();
    let mut i: usize = 0;
    while i < n
        invariant
            n == s@.len(),
            i <= n,
            v@ == s@.take(i as int),
        decreases n - i,
    {
        v.push(s[i]);
        i = i + 1;
        assert(v@ =~= s@.take(i as int));
    }
    assert(s@.take(n as int) =~= s@);
    v
}

fn generate_function_core(
    name: &[u8],
    params_count: usize,
    auto_vars_count: usize,
    body: &[OpWithLocation],
    gen: &mut Generator,
) -> (r: Result<(), Fault>)
    requires
        old(gen)@.wf(),
    ensures
        final(gen)@.wf(),
        match spec_generate_function(name@, params_count, auto_vars_count, body@, old(gen)@) {
            Ok(g) => r == Ok::<(), Fault>(()) && final(gen)@ == g,
            Err(f) => r == Err::<(), Fault>(f),
        },
        old(gen)@.precedes(final(gen)@),
        r is Err ==> final(gen)@.functions == old(gen)@.functions,
{
    proof {
        lemma_precedes_refl(old(gen)@);
    }
    let mut info: Vec<u8> = Vec::new();
    let mut locals_types: Vec<ArgType> = Vec::new();
    let mut k: usize = 0;
    while k < auto_vars_count
        invariant
            k <= auto_vars_count,
            locals_types@ == fresh_locals(k),
        decreases auto_vars_count - k,
    {
        locals_types.push(ArgType::Uninitialized);
        k = k + 1;
        assert(locals_types@ =~= fresh_locals(k));
    }
    write_word(&mut info, METHOD_ACCESS_FLAGS);

    let n1 = CpInfo::Utf8 {
        value: copy_bytes(name),
        source: TextSource::Own(gen.constant_pool().len()),
    };
    if !gen.can_intern(&n1) {
        return Err(Fault::Undefined);
    }
    let ghost g0 = gen@;
    let name_index = get_or_create_cp_info_index(gen, n1);
    proof {
        lemma_precedes_trans(old(gen)@, g0, gen@);
    }
    write_word(&mut info, name_index);

    let n2 = CpInfo::Utf8 {
        value: fixed_text_bytes(TextSource::VoidDescriptor),
        source: TextSource::VoidDescriptor,
    };
    if !gen.can_intern(&n2) {
        return Err(Fault::Undefined);
    }
    let ghost g1 = gen@;
    let descriptor_index = get_or_create_cp_info_index(gen, n2);
    proof {
        lemma_precedes_trans(old(gen)@, g1, gen@);
    }
    write_word(&mut info, descriptor_index);

    write_word(&mut info, 1);

    let n3 = CpInfo::Utf8 {
        value: fixed_text_bytes(TextSource::CodeAttributeName),
        source: TextSource::CodeAttributeName,
    };
    if !gen.can_intern(&n3) {
        return Err(Fault::Undefined);
    }
    let ghost g2 = gen@;
    let code_name_index = get_or_create_cp_info_index(gen, n3);
    proof {
        lemma_precedes_trans(old(gen)@, g2, gen@);
    }
    write_word(&mut info, code_name_index);

    let ghost g3 = gen@;
    let ghost header = info@;
    let mut code: Vec<u8> = Vec::new();
    let n = body.len();
    let mut i: usize = 0;
    assert(body@.skip(0) =~= body@);
    assert(prepend_code(seq![], spec_ops(body@, g3, fresh_locals(auto_vars_count))) == spec_ops(
        body@,
        g3,
        fresh_locals(auto_vars_count),
    )) by {
        match spec_ops(body@, g3, fresh_locals(auto_vars_count)) {
            Ok((c, g, l)) => {
                assert(seq![] + c =~= c);
            },
            Err(_) => {},
        }
    }
    while i < n
        invariant
            n == body@.len(),
            i <= n,
            gen@.wf(),
            old(gen)@.precedes(gen@),
            gen@.functions == old(gen)@.functions,
            spec_generate_function(name@, params_count, auto_vars_count, body@, old(gen)@)
                == finish_function(
                spec_ops(body@, g3, fresh_locals(auto_vars_count)),
                name_index,
                descriptor_index,
                code_name_index,
                params_count,
                auto_vars_count,
            ),
            spec_ops(body@, g3, fresh_locals(auto_vars_count)) == prepend_code(
                code@,
                spec_ops(body@.skip(i as int), gen@, locals_types@),
            ),
        decreases n - i,
    {
        let ghost rest = body@.skip(i as int);
        let ghost code_before = code@;
        let ghost gen_before = gen@;
        let ghost locals_before = locals_types@;
        assert(rest[0] == body@[i as int]);
        assert(rest.drop_first() =~= body@.skip(i + 1));
        match generate_op(&body[i], &mut code, gen, &mut locals_types) {
            Err(f) => {
                return Err(f);
            },
            Ok(()) => {},
        }
        proof {
            lemma_precedes_trans(old(gen)@, gen_before, gen@);
            match spec_op(body@[i as int], gen_before, locals_before) {
                Ok((c, g, l)) => {
                    lemma_prepend_code_assoc(code_before, c, spec_ops(body@.skip(i + 1), g, l));
                },
                Err(_) => {},
            }
        }
        i = i + 1;
    }
    assert(body@.skip(n as int) =~= seq![]);
    assert(code@ + seq![] =~= code@);
    if auto_vars_count > usize::MAX - params_count {
        return Err(Fault::Undefined);
    }
    let code_length = code.len();
    let attribute_length = (code_length as u128 + 12) as u32;
    write_dword(&mut info, attribute_length);
    let max_locals = (params_count + auto_vars_count) as u16;
    write_word(&mut info, max_locals);
    write_word(&mut info, max_locals);
    write_dword(&mut info, code_length as u32);
    let ghost code_bytes = code@;
    info.append(&mut code);
    write_word(&mut info, 0);
    write_word(&mut info, 0);
    assert(info@ =~= method_info(
        name_index,
        descriptor_index,
        code_name_index,
        max_locals,
        code_bytes,
    ));
    let ghost g4 = gen@;
    gen.push_function(info);
    proof {
        lemma_precedes_trans(old(gen)@, g4, gen@);
    }
    Ok(())
}

/// Generating the functions of `funcs` in order; the first that fails stops
/// the generation.
pub open spec fn spec_generate_funcs(funcs: Seq<Func>, gen: GeneratorView) -> Result<
    GeneratorView,
    Fault,
>
    decreases funcs.len(),
{
    if funcs.len() == 0 {
        Ok(gen)
    } else {
        let f = funcs[0];
        match spec_generate_function(f.name@, f.params_count, f.auto_vars_count, f.body@, gen) {
            Err(e) => Err(e),
            Ok(g) => spec_generate_funcs(funcs.drop_first(), g),
        }
    }
}

fn generate_funcs_core(funcs: &[Func], gen: &mut Generator) -> (r: Result<(), Fault>)
    requires
        old(gen)@.wf(),
    ensures
        final(gen)@.wf(),
        match spec_generate_funcs(funcs@, old(gen)@) {
            Ok(g) => r == Ok::<(), Fault>(()) && final(gen)@ == g,
            Err(f) => r == Err::<(), Fault>(f),
        },
        old(gen)@.precedes(final(gen)@),
{
    proof {
        lemma_precedes_refl(old(gen)@);
    }
    let n = funcs.len();
    let mut i: usize = 0;
    assert(funcs@.skip(0) =~= funcs@);
    while i < n
        invariant
            n == funcs@.len(),
            i <= n,
            gen@.wf(),
            old(gen)@.precedes(gen@),
            spec_generate_funcs(funcs@, old(gen)@) == spec_generate_funcs(
                funcs@.skip(i as int),
                gen@,
            ),
        decreases n - i,
    {
        let ghost rest = funcs@.skip(i as int);
        assert(rest[0] == funcs@[i as int]);
        assert(rest.drop_first() =~= funcs@.skip(i + 1));
        let f = &funcs[i];
        let ghost before = gen@;
        match generate_function_core(f.name.as_slice(), f.params_count, f.auto_vars_count, f.body.as_slice(), gen) {
            Err(e) => {
                proof {
                    lemma_precedes_trans(old(gen)@, before, gen@);
                }
                return Err(e);
            },
            Ok(()) => {},
        }
        proof {
            lemma_precedes_trans(old(gen)@, before, gen@);
        }
        i = i + 1;
    }
    assert(funcs@.skip(n as int) =~= seq![]);
    Ok(())
}

/// Scanning the data section from position `i`, where the current string
/// started at `start`: at each zero byte, the string since `start` goes into
/// the pool as a `Utf8` entry, a `String` entry that points to it follows,
/// and the string's offset is recorded with the index of that `String` entry.
/// Bytes after the last zero byte form no string.
pub open spec fn spec_strings_from(data: Seq<u8>, i: int, start: int, gen: GeneratorView) -> Result<
    GeneratorView,
    Fault,
>
    decreases data.len() - i,
{
    if !(0 <= i < data.len()) {
        Ok(gen)
    } else if data[i] == 0 {
        let u = CpInfoView::Utf8 {
            value: data.subrange(start, i),
            source: TextSource::Own(gen.constant_pool.len() as usize),
        };
        if !gen.can_intern(u) {
            Err(Fault::Undefined)
        } else {
            let (g1, utf_index) = gen.intern(u);
            let c = CpInfoView::String { string_index: utf_index };
            if !g1.can_intern(c) {
                Err(Fault::Undefined)
            } else {
                let (g2, string_index) = g1.intern(c);
                spec_strings_from(data, i + 1, i + 1, g2.with_string((start as usize, string_index)))
            }
        }
    } else {
        spec_strings_from(data, i + 1, start, gen)
    }
}

fn generate_strings_core(data: &[u8], gen: &mut Generator) -> (r: Result<(), Fault>)
    requires
        old(gen)@.wf(),
    ensures
        final(gen)@.wf(),
        match spec_strings_from(data@, 0, 0, old(gen)@) {
            Ok(g) => r == Ok::<(), Fault>(()) && final(gen)@ == g,
            Err(f) => r == Err::<(), Fault>(f),
        },
        old(gen)@.precedes(final(gen)@),
{
    proof {
        lemma_precedes_refl(old(gen)@);
    }
    let mut buffer: Vec<u8> = Vec::new();
    let mut data_offset: usize = 0;
    let n = data.len();
    let mut i: usize = 0;
    while i < n
        invariant
            n == data@.len(),
            data_offset <= i <= n,
            gen@.wf(),
            old(gen)@.precedes(gen@),
            buffer@ == data@.subrange(data_offset as int, i as int),
            spec_strings_from(data@, 0, 0, old(gen)@) == spec_strings_from(
                data@,
                i as int,
                data_offset as int,
                gen@,
            ),
        decreases n - i,
    {
        let c: u8 = data[i];
        if c == 0 {
            let u = CpInfo::Utf8 { value: buffer, source: TextSource::Own(gen.constant_pool().len()) };
            if !gen.can_intern(&u) {
                return Err(Fault::Undefined);
            }
            let ghost g0 = gen@;
            let utf_index = get_or_create_cp_info_index(gen, u);
            let s = CpInfo::String { string_index: utf_index };
            if !gen.can_intern(&s) {
                return Err(Fault::Undefined);
            }
            let ghost g1 = gen@;
            let string_index = get_or_create_cp_info_index(gen, s);
            let ghost g2 = gen@;
            gen.push_string((data_offset, string_index));
            proof {
                lemma_precedes_trans(g0, g1, g2);
                lemma_precedes_trans(g0, g2, gen@);
                lemma_precedes_trans(old(gen)@, g0, gen@);
            }
            buffer = Vec::new();
            data_offset = i + 1;
            assert(buffer@ =~= data@.subrange(data_offset as int, i + 1));
        } else {
            buffer.push(c);
            assert(buffer@ =~= data@.subrange(data_offset as int, i + 1));
        }
        i = i + 1;
    }
    Ok(())
}

/// The magic number, then minor version 0 and major version 51.
pub open spec fn class_header() -> Seq<u8> {
    be32(0xCAFEBABE) + be16(0) + be16(51)
}

/// Appends the class-file header to `output`.
pub fn generate_header(output: &mut Vec<u8>)
    ensures
        final(output)@ == old(output)@ + class_header(),
{
    write_dword(output, 0xCAFEBABE);
    write_word(output, 0);
    write_word(output, 51);
    assert(output@ =~= old(output)@ + class_header());
}

/// The `cp_info` structures of `pool`, in order.
pub open spec fn pool_bytes(pool: Seq<CpInfoView>) -> Seq<u8>
    decreases pool.len(),
{
    if pool.len() == 0 {
        seq![]
    } else {
        cp_info_bytes(pool[0]) + pool_bytes(pool.drop_first())
    }
}

/// The byte strings of `parts`, one after the other.
pub open spec fn concat(parts: Seq<Seq<u8>>) -> Seq<u8>
    decreases parts.len(),
{
    if parts.len() == 0 {
        seq![]
    } else {
        parts[0] + concat(parts.drop_first())
    }
}

/// `ACC_SUPER`
pub const CLASS_ACCESS_FLAGS: u16 = 0x0020;

/// Everything of the class file after the header, for the generator `gen`
/// whose pool holds the class entries `this_class` and `super_class`: the
/// constant pool (its count is one more than its entries), the access flags,
/// the class and its superclass, no interfaces, no fields, the methods and
/// no attributes.
pub open spec fn class_body(gen: GeneratorView, this_class: u16, super_class: u16) -> Seq<u8> {
    be16((gen.constant_pool.len() + 1) as u16) + pool_bytes(gen.constant_pool) + be16(
        CLASS_ACCESS_FLAGS,
    ) + be16(this_class) + be16(super_class) + be16(0) + be16(0) + be16(
        gen.functions.len() as u16,
    ) + concat(gen.functions) + be16(0)
}

/// Generating the rest of the class file: the entries of the superclass
/// `java/lang/Object` and of the class `Hello` go into the pool, then the
/// body is written.
pub open spec fn spec_generate_body(gen: GeneratorView) -> Result<(Seq<u8>, GeneratorView), Fault> {
    let u1 = CpInfoView::Utf8 { value: object_class_name(), source: TextSource::ObjectClassName };
    if !gen.can_intern(u1) {
        Err(Fault::Undefined)
    } else {
        let (g1, super_name) = gen.intern(u1);
        let c1 = CpInfoView::Class { name_index: super_name };
        if !g1.can_intern(c1) {
            Err(Fault::Undefined)
        } else {
            let (g2, super_class) = g1.intern(c1);
            let u2 = CpInfoView::Utf8 {
                value: this_class_name(),
                source: TextSource::ThisClassName,
            };
            if !g2.can_intern(u2) {
                Err(Fault::Undefined)
            } else {
                let (g3, this_name) = g2.intern(u2);
                let c2 = CpInfoView::Class { name_index: this_name };
                if !g3.can_intern(c2) {
                    Err(Fault::Undefined)
                } else {
                    let (g4, this_class) = g3.intern(c2);
                    Ok((class_body(g4, this_class, super_class), g4))
                }
            }
        }
    }
}

/// Appends the `cp_info` structures of `pool`.
fn write_constant_pool(output: &mut Vec<u8>, constant_pool: &Vec<CpInfo>)
    ensures
        final(output)@ == old(output)@ + pool_bytes(constant_pool@.map_values(|c: CpInfo| c@)),
{
    let ghost pool = constant_pool@.map_values(|c: CpInfo| c@);
    let pool_len = constant_pool.len();
    let mut i: usize = 0;
    assert(pool.skip(0) =~= pool);
    while i < pool_len
        invariant
            pool_len == pool.len(),
            constant_pool@.map_values(|c: CpInfo| c@) == pool,
            i <= pool_len,
            old(output)@ + pool_bytes(pool) == output@ + pool_bytes(pool.skip(i as int)),
        decreases pool_len - i,
    {
        let ghost before = output@;
        let ghost rest = pool.skip(i as int);
        assert(rest[0] == constant_pool@[i as int]@);
        assert(rest.drop_first() =~= pool.skip(i + 1));
        write_cp_info(output, &constant_pool[i]);
        assert(before + pool_bytes(rest) =~= output@ + pool_bytes(pool.skip(i + 1)));
        i = i + 1;
    }
    assert(pool.skip(pool_len as int) =~= seq![]);
    assert(output@ + pool_bytes(seq![]) =~= output@);
}

/// Appends the encoded methods one after the other.
fn write_methods(output: &mut Vec<u8>, functions: &Vec<Vec<u8>>)
    ensures
        final(output)@ == old(output)@ + concat(functions@.map_values(|f: Vec<u8>| f@)),
{
    let ghost parts = functions@.map_values(|f: Vec<u8>| f@);
    let count = functions.len();
    let mut j: usize = 0;
    assert(parts.skip(0) =~= parts);
    while j < count
        invariant
            count == parts.len(),
            functions@.map_values(|f: Vec<u8>| f@) == parts,
            j <= count,
            old(output)@ + concat(parts) == output@ + concat(parts.skip(j as int)),
        decreases count - j,
    {
        let ghost before = output@;
        let ghost rest = parts.skip(j as int);
        assert(rest[0] == functions@[j as int]@);
        assert(rest.drop_first() =~= parts.skip(j + 1));
        let f = &functions[j];
        let m = f.len();
        let mut k: usize = 0;
        while k < m
            invariant
                m == f@.len(),
                k <= m,
                output@ == before + f@.take(k as int),
            decreases m - k,
        {
            output.push(f[k]);
            k = k + 1;
            assert(output@ =~= before + f@.take(k as int));
        }
        assert(f@.take(m as int) =~= f@);
        assert(before + concat(rest) =~= output@ + concat(parts.skip(j + 1)));
        j = j + 1;
    }
    assert(parts.skip(count as int) =~= seq![]);
    assert(output@ + concat(seq![]) =~= output@);
}

#[verifier::rlimit(40)]
fn generate_body_core(output: &mut Vec<u8>, gen: &mut Generator) -> (r: Result<(), Fault>)
    requires
        old(gen)@.wf(),
    ensures
        final(gen)@.wf(),
        match spec_generate_body(old(gen)@) {
            Ok((bytes, g)) => r == Ok::<(), Fault>(()) && final(output)@ == old(output)@ + bytes
                && final(gen)@ == g,
            Err(f) => r == Err::<(), Fault>(f),
        },
        old(gen)@.precedes(final(gen)@),
        r is Err ==> final(output)@ == old(output)@,
{
    proof {
        lemma_precedes_refl(old(gen)@);
    }
    let u1 = CpInfo::Utf8 {
        value: fixed_text_bytes(TextSource::ObjectClassName),
        source: TextSource::ObjectClassName,
    };
    if !gen.can_intern(&u1) {
        return Err(Fault::Undefined);
    }
    let ghost ga = gen@;
    let super_class_name = get_or_create_cp_info_index(gen, u1);
    proof {
        lemma_precedes_trans(old(gen)@, ga, gen@);
    }
    let c1 = CpInfo::Class { name_index: super_class_name };
    if !gen.can_intern(&c1) {
        return Err(Fault::Undefined);
    }
    let ghost gb = gen@;
    let super_class = get_or_create_cp_info_index(gen, c1);
    proof {
        lemma_precedes_trans(old(gen)@, gb, gen@);
    }
    let u2 = CpInfo::Utf8 {
        value: fixed_text_bytes(TextSource::ThisClassName),
        source: TextSource::ThisClassName,
    };
    if !gen.can_intern(&u2) {
        return Err(Fault::Undefined);
    }
    let ghost gc = gen@;
    let this_name = get_or_create_cp_info_index(gen, u2);
    proof {
        lemma_precedes_trans(old(gen)@, gc, gen@);
    }
    let c2 = CpInfo::Class { name_index: this_name };
    if !gen.can_intern(&c2) {
        return Err(Fault::Undefined);
    }
    let ghost gd = gen@;
    let this_class = get_or_create_cp_info_index(gen, c2);
    proof {
        lemma_precedes_trans(old(gen)@, gd, gen@);
    }

    write_word(output, (gen.constant_pool().len() as u128 + 1) as u16);
    write_constant_pool(output, gen.constant_pool());

    write_word(output, CLASS_ACCESS_FLAGS);
    write_word(output, this_class);
    write_word(output, super_class);
    write_word(output, 0);
    write_word(output, 0);

    write_word(output, gen.functions().len() as u16);
    write_methods(output, gen.functions());

    write_word(output, 0);
    assert(output@ =~= old(output)@ + class_body(gen@, this_class, super_class));
    Ok(())
}

/// The whole class file of a program with data section `data` and functions
/// `funcs`: the header, then, after the data section's strings and the
/// functions were generated into a fresh generator, the class body.
pub open spec fn spec_generate_program(data: Seq<u8>, funcs: Seq<Func>) -> Result<Seq<u8>, Fault> {
    match spec_strings_from(data, 0, 0, empty_generator()) {
        Err(f) => Err(f),
        Ok(g1) => match spec_generate_funcs(funcs, g1) {
            Err(f) => Err(f),
            Ok(g2) => match spec_generate_body(g2) {
                Err(f) => Err(f),
                Ok((bytes, _)) => Ok(class_header() + bytes),
            },
        },
    }
}

fn generate_program_core(output: &mut Vec<u8>, c: &Compiler) -> (r: Result<(), Fault>)
    ensures
        match spec_generate_program(c.data@, c.funcs@) {
            Ok(bytes) => r == Ok::<(), Fault>(()) && final(output)@ == old(output)@ + bytes,
            Err(f) => r == Err::<(), Fault>(f),
        },
        r is Err ==> final(output)@ == old(output)@ + class_header(),
{
    let mut gen = Generator::new();
    generate_header(output);
    let ghost after_header = output@;
    match generate_strings_core(c.data.as_slice(), &mut gen) {
        Err(f) => {
            return Err(f);
        },
        Ok(()) => {},
    }
    match generate_funcs_core(c.funcs.as_slice(), &mut gen) {
        Err(f) => {
            return Err(f);
        },
        Ok(()) => {},
    }
    match generate_body_core(output, &mut gen) {
        Err(f) => {
            return Err(f);
        },
        Ok(()) => {},
    }
    assert(output@ =~= old(output)@ + class_header() + output@.subrange(
        after_header.len() as int,
        output@.len() as int,
    ));
    Ok(())
}

/// `r` is an outcome outside the domain of generation: an input that no
/// finished program holds, or a constant pool without room.
pub open spec fn is_undefined<T>(r: Result<T, Fault>) -> bool {
    r == Err::<T, Fault>(Fault::Undefined)
}

/// Appends the instructions that load `arg` onto the operand stack and says
/// what the loaded value is. Literals above 5 and all strings go through the
/// constant pool; automatic variables are read in the slot before their
/// number, as their recorded type says.
pub fn load_arg_value(
    arg: &Arg,
    output: &mut Vec<u8>,
    loc: Loc,
    gen: &mut Generator,
    local_types: &Vec<ArgType>,
) -> (r: Result<ArgType, CodegenError>)
    requires
        old(gen)@.wf(),
        !is_undefined(spec_load_arg(*arg, loc, old(gen)@, local_types@)),
    ensures
        final(gen)@.wf(),
        match spec_load_arg(*arg, loc, old(gen)@, local_types@) {
            Ok((bytes, g, t)) => r == Ok::<ArgType, CodegenError>(t) && final(output)@ == old(
                output,
            )@ + bytes && final(gen)@ == g,
            Err(Fault::Missing(e)) => r == Err::<ArgType, CodegenError>(e),
            Err(Fault::Undefined) => false,
        },
        old(gen)@.precedes(final(gen)@),
        r is Err ==> final(output)@ == old(output)@ && final(gen)@ == old(gen)@,
{
    match load_arg_core(arg, output, loc, gen, local_types) {
        Ok(t) => Ok(t),
        Err(Fault::Missing(e)) => Err(e),
        Err(Fault::Undefined) => unreached(),
    }
}

/// Appends the instruction that stores the value on top of the stack, of
/// type `arg_type`, into automatic variable `auto_var_index` (numbered from
/// 1), and records an `int` stored there.
pub fn store_value(
    auto_var_index: usize,
    output: &mut Vec<u8>,
    loc: Loc,
    arg_type: ArgType,
    local_types: &mut Vec<ArgType>,
) -> (r: Result<(), CodegenError>)
    requires
        !is_undefined(spec_store_value(auto_var_index, arg_type, loc, old(local_types)@)),
    ensures
        match spec_store_value(auto_var_index, arg_type, loc, old(local_types)@) {
            Ok((bytes, l)) => r == Ok::<(), CodegenError>(()) && final(output)@ == old(output)@
                + bytes && final(local_types)@ == l,
            Err(Fault::Missing(e)) => r == Err::<(), CodegenError>(e),
            Err(Fault::Undefined) => false,
        },
        r is Err ==> final(output)@ == old(output)@ && final(local_types)@ == old(local_types)@,
{
    match store_value_core(auto_var_index, output, loc, arg_type, local_types) {
        Ok(()) => Ok(()),
        Err(Fault::Missing(e)) => Err(e),
        Err(Fault::Undefined) => unreached(),
    }
}

/// Generates the `method_info` of a public static method `name` with
/// descriptor `()V` and the given body, and adds it to the generator.
pub fn generate_function(
    name: &[u8],
    params_count: usize,
    auto_vars_count: usize,
    body: &[OpWithLocation],
    gen: &mut Generator,
) -> (r: Result<(), CodegenError>)
    requires
        old(gen)@.wf(),
        !is_undefined(
            spec_generate_function(name@, params_count, auto_vars_count, body@, old(gen)@),
        ),
    ensures
        final(gen)@.wf(),
        match spec_generate_function(name@, params_count, auto_vars_count, body@, old(gen)@) {
            Ok(g) => r == Ok::<(), CodegenError>(()) && final(gen)@ == g,
            Err(Fault::Missing(e)) => r == Err::<(), CodegenError>(e),
            Err(Fault::Undefined) => false,
        },
        old(gen)@.precedes(final(gen)@),
        r is Err ==> final(gen)@.functions == old(gen)@.functions,
{
    match generate_function_core(name, params_count, auto_vars_count, body, gen) {
        Ok(()) => Ok(()),
        Err(Fault::Missing(e)) => Err(e),
        Err(Fault::Undefined) => unreached(),
    }
}

/// Generates the functions of `funcs` in order.
pub fn generate_funcs(funcs: &[Func], gen: &mut Generator) -> (r: Result<(), CodegenError>)
    requires
        old(gen)@.wf(),
        !is_undefined(spec_generate_funcs(funcs@, old(gen)@)),
    ensures
        final(gen)@.wf(),
        match spec_generate_funcs(funcs@, old(gen)@) {
            Ok(g) => r == Ok::<(), CodegenError>(()) && final(gen)@ == g,
            Err(Fault::Missing(e)) => r == Err::<(), CodegenError>(e),
            Err(Fault::Undefined) => false,
        },
        old(gen)@.precedes(final(gen)@),
{
    match generate_funcs_core(funcs, gen) {
        Ok(()) => Ok(()),
        Err(Fault::Missing(e)) => Err(e),
        Err(Fault::Undefined) => unreached(),
    }
}

/// Puts each zero-terminated string of the data section into the constant
/// pool, as a `Utf8` entry and a `String` entry, and records the string's
/// offset with the index of its `String` entry. `output` is left as it is.
pub fn generate_strings_from_data_section(output: &mut Vec<u8>, data: &[u8], gen: &mut Generator)
    requires
        old(gen)@.wf(),
        spec_strings_from(data@, 0, 0, old(gen)@) is Ok,
    ensures
        final(gen)@.wf(),
        Ok::<GeneratorView, Fault>(final(gen)@) == spec_strings_from(data@, 0, 0, old(gen)@),
        old(gen)@.precedes(final(gen)@),
        final(output)@ == old(output)@,
{
    match generate_strings_core(data, gen) {
        Ok(()) => {},
        Err(_) => unreached(),
    }
}

/// Adds the class entries of `Hello` and `java/lang/Object` to the pool and
/// appends the rest of the class file: the constant pool, the class, its
/// superclass and its methods.
pub fn generate_body(output: &mut Vec<u8>, gen: &mut Generator)
    requires
        old(gen)@.wf(),
        spec_generate_body(old(gen)@) is Ok,
    ensures
        final(gen)@.wf(),
        match spec_generate_body(old(gen)@) {
            Ok((bytes, g)) => final(output)@ == old(output)@ + bytes && final(gen)@ == g,
            Err(_) => false,
        },
        old(gen)@.precedes(final(gen)@),
{
    match generate_body_core(output, gen) {
        Ok(()) => {},
        Err(_) => unreached(),
    }
}

/// Appends the class file of the program `c` to `output`.
pub fn generate_program(output: &mut Vec<u8>, c: &Compiler) -> (r: Result<(), CodegenError>)
    requires
        !is_undefined(spec_generate_program(c.data@, c.funcs@)),
    ensures
        match spec_generate_program(c.data@, c.funcs@) {
            Ok(bytes) => r == Ok::<(), CodegenError>(()) && final(output)@ == old(output)@ + bytes,
            Err(Fault::Missing(e)) => r == Err::<(), CodegenError>(e),
            Err(Fault::Undefined) => false,
        },
        r is Err ==> final(output)@ == old(output)@ + class_header(),
{
    match generate_program_core(output, c) {
        Ok(()) => Ok(()),
        Err(Fault::Missing(e)) => Err(e),
        Err(Fault::Undefined) => unreached(),
    }
}

/// Whether the program `c` lies in the domain of [`generate_program`]: it
/// holds no placeholder, reads no automatic variable before writing it,
/// names no slot out of range, and its constants fit the pool, up to the
/// first construct that generation does not translate.
pub fn program_is_defined(c: &Compiler) -> (defined: bool)
    ensures
        defined == !is_undefined(spec_generate_program(c.data@, c.funcs@)),
{
    let mut scratch: Vec<u8> = Vec::new();
    match generate_program_core(&mut scratch, c) {
        Err(Fault::Undefined) => false,
        _ => true,
    }
}

} // verus!
