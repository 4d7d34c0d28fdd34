//! Properties of the generator that hold across its operations.
use vstd::prelude::*;
use crate::bytes::{be16, be32};
use crate::class_file::{
    CpInfoView, GeneratorView, TextSource, code_attribute_name, cp_info_bytes, fixed_text,
    lemma_precedes_refl, lemma_precedes_trans, object_class_name, same_entry, this_class_name,
    void_descriptor,
};
use crate::codegen::{
    ArgType, Fault, ILOAD, ILOAD_0, class_body, class_header, fresh_locals, lemma_prepend_code_assoc,
    local_insn, method_info, pool_bytes, prepend_code, spec_generate_body, spec_generate_function,
    spec_generate_funcs, spec_generate_program, spec_load_arg, spec_op, spec_ops, spec_store_value,
    spec_strings_from, concat, string_loads,
};
use crate::ir::{Arg, Binop, Func, Loc, Op, OpWithLocation};
use crate::codegen::{CodegenError, Missing};

verus! {

/// The pool takes entries for one another as an equivalence: each entry for
/// itself, symmetrically, and transitively.
pub proof fn lemma_same_entry_equivalence(a: CpInfoView, b: CpInfoView, c: CpInfoView)
    ensures
        same_entry(a, a),
        same_entry(a, b) == same_entry(b, a),
        same_entry(a, b) && same_entry(b, c) ==> same_entry(a, c),
{
}

/// An entry that `g` holds stays at its place in any later state.
pub proof fn lemma_entry_kept(g: GeneratorView, g2: GeneratorView, k: int)
    requires
        g.precedes(g2),
        0 <= k < g.constant_pool.len(),
    ensures
        g2.constant_pool[k] == g.constant_pool[k],
{
    assert(g2.constant_pool.subrange(0, g.constant_pool.len() as int)[k] == g2.constant_pool[k]);
}

/// A string record of `g` stays at its place in any later state.
pub proof fn lemma_record_kept(g: GeneratorView, g2: GeneratorView, k: int)
    requires
        g.precedes(g2),
        0 <= k < g.strings.len(),
    ensures
        g2.strings[k] == g.strings[k],
{
    assert(g2.strings.subrange(0, g.strings.len() as int)[k] == g2.strings[k]);
}

/// `g2` came from `g` by adding entries at the end of the pool only.
pub open spec fn pool_extends(g: GeneratorView, g2: GeneratorView) -> bool {
    &&& g.precedes(g2)
    &&& g2.functions == g.functions
    &&& g2.strings == g.strings
}

/// Interning `c` keeps the generator well formed and only ever appends to the
/// pool, and the index it gives names an entry that the pool takes for `c`.
/// When the pool held no such entry, the new entry is `c` itself; a text kept
/// on its own at the next position is always new; and a text entry of one of
/// the generator's own places holds that place's bytes.
pub proof fn lemma_intern_names_entry(g: GeneratorView, c: CpInfoView)
    requires
        g.wf(),
        g.can_intern(c),
    ensures
        ({
            let (g2, i) = g.intern(c);
            &&& g2.wf()
            &&& pool_extends(g, g2)
            &&& g2.constant_pool.len() <= g.constant_pool.len() + 1
            &&& 1 <= i <= g2.constant_pool.len()
            &&& same_entry(g2.constant_pool[i - 1], c)
            &&& g.holds(c) ==> g2 == g
            &&& !g.holds(c) ==> g2.constant_pool[i - 1] == c && i == g.constant_pool.len() + 1
            &&& (c is Utf8 && c->Utf8_source == TextSource::Own(g.constant_pool.len() as usize))
                ==> !g.holds(c)
            &&& (c is Utf8 && !(c->Utf8_source is Own)) ==> g2.constant_pool[i - 1]
                == CpInfoView::Utf8 {
                value: fixed_text(c->Utf8_source),
                source: c->Utf8_source,
            }
        }),
{
    let pool = g.constant_pool;
    let (g2, i) = g.intern(c);
    if c is Utf8 && c->Utf8_source == TextSource::Own(pool.len() as usize) {
        if g.holds(c) {
            let j = g.position_of(c);
            assert(same_entry(pool[j], c));
            assert(pool[j] is Utf8);
            assert(pool[j]->Utf8_source == c->Utf8_source);
            assert(text_in_place_at(pool, j));
        }
    }
    if g.holds(c) {
        let j = g.position_of(c);
        assert(0 <= j < pool.len() && same_entry(pool[j], c));
        assert(text_in_place_at(pool, j));
        lemma_precedes_refl(g);
    } else {
        let p2 = pool.push(c);
        assert(p2.subrange(0, pool.len() as int) =~= pool);
        assert(g.functions =~= g.functions.subrange(0, g.functions.len() as int));
        assert(g.strings =~= g.strings.subrange(0, g.strings.len() as int));
        assert forall|a: int, b: int|
            0 <= a < p2.len() && 0 <= b < p2.len() && a != b implies !same_entry(
            p2[a],
            p2[b],
        ) by {
            if a == pool.len() as int {
                assert(!same_entry(pool[b], c));
                lemma_same_entry_equivalence(c, pool[b], c);
            } else if b == pool.len() as int {
                assert(!same_entry(pool[a], c));
            }
        }
        assert forall|a: int| 0 <= a < p2.len() implies crate::class_file::text_in_place(
            #[trigger] p2[a],
            a,
        ) by {
            if a < pool.len() {
                assert(p2[a] == pool[a]);
                assert(text_in_place_at(pool, a));
            }
        }
    }
}

/// Entry `k` of `pool` agrees with its place (what well-formedness says of
/// each entry).
pub open spec fn text_in_place_at(pool: Seq<CpInfoView>, k: int) -> bool {
    crate::class_file::text_in_place(pool[k], k)
}

/// Interning an entry a second time gives the same index and changes
/// nothing.
pub proof fn lemma_intern_idempotent(g: GeneratorView, c: CpInfoView)
    requires
        g.wf(),
        g.can_intern(c),
    ensures
        ({
            let (g2, i) = g.intern(c);
            g2.can_intern(c) && g2.intern(c) == (g2, i)
        }),
{
    lemma_intern_names_entry(g, c);
    let (g2, i) = g.intern(c);
    let p = g2.constant_pool;
    assert(g2.holds(c)) by {
        assert(same_entry(p[i - 1], c));
    }
    let j = g2.position_of(c);
    assert(0 <= j < p.len() && same_entry(p[j], c));
    lemma_same_entry_equivalence(p[j], c, p[i - 1]);
    lemma_same_entry_equivalence(p[i - 1], c, c);
    assert(j == i - 1);
}

/// Two entries that the pool tells apart, interned one after the other, get
/// different indices, and the first keeps its index.
pub proof fn lemma_intern_distinct(g: GeneratorView, c1: CpInfoView, c2: CpInfoView)
    requires
        g.wf(),
        g.can_intern(c1),
        g.intern(c1).0.can_intern(c2),
        !same_entry(c1, c2),
    ensures
        ({
            let (g2, i1) = g.intern(c1);
            let (g3, i2) = g2.intern(c2);
            i1 != i2 && same_entry(g3.constant_pool[i1 - 1], c1)
        }),
{
    lemma_intern_names_entry(g, c1);
    let (g2, i1) = g.intern(c1);
    lemma_intern_names_entry(g2, c2);
    let (g3, i2) = g2.intern(c2);
    lemma_entry_kept(g2, g3, i1 - 1);
    let x = g3.constant_pool[i1 - 1];
    lemma_same_entry_equivalence(c1, x, c2);
    lemma_same_entry_equivalence(x, c1, c1);
}

/// The number that two big-endian bytes stand for.
pub open spec fn decode_be16(b: Seq<u8>) -> int {
    b[0] * 256 + b[1]
}

/// The number that four big-endian bytes stand for.
pub open spec fn decode_be32(b: Seq<u8>) -> int {
    ((b[0] * 256 + b[1]) * 256 + b[2]) * 256 + b[3]
}

/// A word is written as two bytes that read back as the word.
pub proof fn lemma_be16_roundtrip(w: u16)
    ensures
        be16(w).len() == 2,
        decode_be16(be16(w)) == w,
{
    assert((w / 256) * 256 + w % 256 == w) by (nonlinear_arith);
}

/// A double word is written as four bytes that read back as the double word.
pub proof fn lemma_be32_roundtrip(d: u32)
    ensures
        be32(d).len() == 4,
        decode_be32(be32(d)) == d,
{
    let b = be32(d);
    assert(b[0] == d / 0x100_0000);
    assert(b[1] == (d / 0x1_0000) % 256);
    assert(b[2] == (d / 256) % 256);
    assert(b[3] == d % 256);
    assert(((d / 0x100_0000) * 256 + (d / 0x1_0000) % 256) == d / 0x1_0000) by (nonlinear_arith);
    assert((d / 0x1_0000) * 256 + (d / 256) % 256 == d / 256) by (nonlinear_arith);
    assert((d / 256) * 256 + d % 256 == d) by (nonlinear_arith);
}

/// After an `int` is stored into automatic variable `index`, loading that
/// variable reads the same slot and gives an `int`, and uses no constant.
pub proof fn lemma_store_then_load_int(
    index: usize,
    loc: Loc,
    locals: Seq<ArgType>,
    g: GeneratorView,
)
    requires
        spec_store_value(index, ArgType::Integer, loc, locals) is Ok,
    ensures
        ({
            let (_, l2) = spec_store_value(index, ArgType::Integer, loc, locals)->Ok_0;
            spec_load_arg(Arg::AutoVar(index), loc, g, l2) == Ok::<
                (Seq<u8>, GeneratorView, ArgType),
                Fault,
            >((local_insn(ILOAD_0, ILOAD, (index - 1) as usize), g, ArgType::Integer))
        }),
{
}

/// Every class file begins with the magic number `CAFEBABE` and the version
/// 0.51.
pub proof fn lemma_program_starts_with_magic(data: Seq<u8>, funcs: Seq<Func>)
    requires
        spec_generate_program(data, funcs) is Ok,
    ensures
        spec_generate_program(data, funcs)->Ok_0.take(8) == seq![
            0xCAu8,
            0xFEu8,
            0xBAu8,
            0xBEu8,
            0u8,
            0u8,
            0u8,
            51u8,
        ],
{
    let bytes = spec_generate_program(data, funcs)->Ok_0;
    assert(class_header() =~= seq![0xCAu8, 0xFEu8, 0xBAu8, 0xBEu8, 0u8, 0u8, 0u8, 51u8]);
    assert(bytes.take(8) =~= class_header());
}

proof fn lemma_load_extends(arg: Arg, loc: Loc, g: GeneratorView, locals: Seq<ArgType>)
    requires
        g.wf(),
        spec_load_arg(arg, loc, g, locals) is Ok,
    ensures
        spec_load_arg(arg, loc, g, locals)->Ok_0.1.wf(),
        pool_extends(g, spec_load_arg(arg, loc, g, locals)->Ok_0.1),
{
    lemma_precedes_refl(g);
    match arg {
        Arg::Literal(v) => {
            if 5 < v && v < crate::codegen::INT_LITERAL_LIMIT {
                lemma_intern_names_entry(g, CpInfoView::Integer { value: v as i32 });
            } else if crate::codegen::INT_LITERAL_LIMIT <= v {
                lemma_intern_names_entry(g, CpInfoView::Long { value: v as i64 });
            }
        },
        _ => {},
    }
}

proof fn lemma_op_extends(op: OpWithLocation, g: GeneratorView, locals: Seq<ArgType>)
    requires
        g.wf(),
        spec_op(op, g, locals) is Ok,
    ensures
        spec_op(op, g, locals)->Ok_0.1.wf(),
        pool_extends(g, spec_op(op, g, locals)->Ok_0.1),
{
    match op.opcode {
        Op::Binop { binop, index, lhs, rhs } => {
            lemma_load_extends(lhs, op.loc, g, locals);
            let g1 = spec_load_arg(lhs, op.loc, g, locals)->Ok_0.1;
            lemma_load_extends(rhs, op.loc, g1, locals);
            lemma_precedes_trans(g, g1, spec_load_arg(rhs, op.loc, g1, locals)->Ok_0.1);
        },
        Op::AutoAssign { index, arg } => {
            lemma_load_extends(arg, op.loc, g, locals);
        },
        _ => {},
    }
}

proof fn lemma_ops_extends(body: Seq<OpWithLocation>, g: GeneratorView, locals: Seq<ArgType>)
    requires
        g.wf(),
        spec_ops(body, g, locals) is Ok,
    ensures
        spec_ops(body, g, locals)->Ok_0.1.wf(),
        pool_extends(g, spec_ops(body, g, locals)->Ok_0.1),
    decreases body.len(),
{
    if body.len() == 0 {
        lemma_precedes_refl(g);
    } else {
        lemma_op_extends(body[0], g, locals);
        let (c, g1, l1) = spec_op(body[0], g, locals)->Ok_0;
        lemma_ops_extends(body.drop_first(), g1, l1);
        lemma_precedes_trans(g, g1, spec_ops(body.drop_first(), g1, l1)->Ok_0.1);
    }
}

/// The code of a body made of two parts is the code of the first part
/// followed by the code of the second, generated from the pool and local
/// types that the first part left; a failure in the first part is the
/// failure of the whole.
pub proof fn lemma_ops_concat(
    b1: Seq<OpWithLocation>,
    b2: Seq<OpWithLocation>,
    g: GeneratorView,
    locals: Seq<ArgType>,
)
    ensures
        spec_ops(b1 + b2, g, locals) == match spec_ops(b1, g, locals) {
            Ok((c1, g1, l1)) => prepend_code(c1, spec_ops(b2, g1, l1)),
            Err(f) => Err(f),
        },
    decreases b1.len(),
{
    if b1.len() == 0 {
        assert(b1 + b2 =~= b2);
        match spec_ops(b2, g, locals) {
            Ok((c, g2, l2)) => {
                assert(seq![] + c =~= c);
            },
            Err(_) => {},
        }
    } else {
        assert((b1 + b2)[0] == b1[0]);
        assert((b1 + b2).drop_first() =~= b1.drop_first() + b2);
        match spec_op(b1[0], g, locals) {
            Err(_) => {},
            Ok((c, g1, l1)) => {
                lemma_ops_concat(b1.drop_first(), b2, g1, l1);
                match spec_ops(b1.drop_first(), g1, l1) {
                    Ok((c1, g2, l2)) => {
                        lemma_prepend_code_assoc(c, c1, spec_ops(b2, g2, l2));
                    },
                    Err(_) => {},
                }
            },
        }
    }
}

/// Entry `i` (counted from 1) of `pool` is a text entry holding `value`.
pub open spec fn text_at(pool: Seq<CpInfoView>, i: int, value: Seq<u8>) -> bool {
    &&& 1 <= i <= pool.len()
    &&& pool[i - 1] is Utf8
    &&& pool[i - 1]->Utf8_value == value
}

/// Generating a function adds exactly one method and leaves the existing
/// pool entries, methods and strings in place; the name, descriptor and
/// attribute-name indices written in the method name pool entries that hold
/// the function's name, `()V` and `Code`; the name gets an entry of its own.
pub proof fn lemma_generate_function_resolves(
    name: Seq<u8>,
    params_count: usize,
    auto_vars_count: usize,
    body: Seq<OpWithLocation>,
    g: GeneratorView,
)
    requires
        g.wf(),
        spec_generate_function(name, params_count, auto_vars_count, body, g) is Ok,
    ensures
        ({
            let g2 = spec_generate_function(name, params_count, auto_vars_count, body, g)->Ok_0;
            let m = g2.functions.last();
            let p = g2.constant_pool;
            &&& g2.wf()
            &&& g.precedes(g2)
            &&& g2.functions.len() == g.functions.len() + 1
            &&& g2.strings == g.strings
            &&& decode_be16(m.subrange(2, 4)) == g.constant_pool.len() + 1
            &&& text_at(p, decode_be16(m.subrange(2, 4)), name)
            &&& text_at(p, decode_be16(m.subrange(4, 6)), void_descriptor())
            &&& text_at(p, decode_be16(m.subrange(8, 10)), code_attribute_name())
        }),
{
    let n1 = CpInfoView::Utf8 {
        value: name,
        source: TextSource::Own(g.constant_pool.len() as usize),
    };
    let n2 = CpInfoView::Utf8 { value: void_descriptor(), source: TextSource::VoidDescriptor };
    let n3 = CpInfoView::Utf8 {
        value: code_attribute_name(),
        source: TextSource::CodeAttributeName,
    };
    lemma_intern_names_entry(g, n1);
    let (g1, i1) = g.intern(n1);
    lemma_intern_names_entry(g1, n2);
    let (g2, i2) = g1.intern(n2);
    lemma_intern_names_entry(g2, n3);
    let (g3, i3) = g2.intern(n3);
    lemma_precedes_trans(g, g1, g2);
    lemma_precedes_trans(g, g2, g3);
    let locals = fresh_locals(auto_vars_count);
    lemma_ops_extends(body, g3, locals);
    let (code, g4, _) = spec_ops(body, g3, locals)->Ok_0;
    lemma_precedes_trans(g, g3, g4);
    lemma_precedes_trans(g1, g2, g3);
    lemma_precedes_trans(g1, g3, g4);
    lemma_precedes_trans(g2, g3, g4);
    let ml = (params_count + auto_vars_count) as u16;
    let m = method_info(i1, i2, i3, ml, code);
    let out = spec_generate_function(name, params_count, auto_vars_count, body, g)->Ok_0;
    assert(out == g4.with_function(m));
    assert(m.subrange(2, 4) =~= be16(i1));
    assert(m.subrange(4, 6) =~= be16(i2));
    assert(m.subrange(8, 10) =~= be16(i3));
    lemma_be16_roundtrip(i1);
    lemma_be16_roundtrip(i2);
    lemma_be16_roundtrip(i3);
    lemma_entry_kept(g1, g4, i1 - 1);
    lemma_entry_kept(g2, g4, i2 - 1);
    lemma_entry_kept(g3, g4, i3 - 1);
    assert(g4.functions =~= out.functions.subrange(0, g4.functions.len() as int));
    assert(g.functions == g4.functions);
    assert(g.functions.is_prefix_of(out.functions));
}

/// `s` is the string that starts at offset `start` of `data`: its bytes are
/// there, none of them is zero, and a zero byte follows them.
pub open spec fn zero_terminated_at(data: Seq<u8>, start: int, s: Seq<u8>) -> bool {
    &&& 0 <= start
    &&& start + s.len() < data.len()
    &&& data.subrange(start, start + s.len()) == s
    &&& data[start + s.len()] == 0
    &&& forall|j: int| 0 <= j < s.len() ==> s[j] != 0
}

/// The `k`-th string record of `g` points to a `String` entry, which points
/// to a text entry.
pub open spec fn record_points_to_text(g: GeneratorView, k: int) -> bool {
    let (off, si) = g.strings[k];
    let p = g.constant_pool;
    &&& 1 <= si <= p.len()
    &&& p[si - 1] is String
    &&& 1 <= p[si - 1]->String_string_index <= p.len()
    &&& p[p[si - 1]->String_string_index - 1] is Utf8
}

/// The `k`-th string record of `g` points to a `String` entry, which points
/// to a text entry that holds the string found at the record's offset of
/// `data`.
pub open spec fn record_resolves(g: GeneratorView, data: Seq<u8>, k: int) -> bool {
    let (off, si) = g.strings[k];
    let p = g.constant_pool;
    &&& record_points_to_text(g, k)
    &&& zero_terminated_at(data, off as int, p[p[si - 1]->String_string_index - 1]->Utf8_value)
}

/// What a record pointed to stays so in any later state.
pub proof fn lemma_record_persists(g: GeneratorView, g2: GeneratorView, k: int)
    requires
        g.precedes(g2),
        0 <= k < g.strings.len(),
        record_points_to_text(g, k),
    ensures
        record_points_to_text(g2, k),
        g2.strings[k] == g.strings[k],
        g2.constant_pool[g.strings[k].1 - 1] == g.constant_pool[g.strings[k].1 - 1],
        ({
            let u = g.constant_pool[g.strings[k].1 - 1]->String_string_index;
            g2.constant_pool[u - 1] == g.constant_pool[u - 1]
        }),
{
    lemma_record_kept(g, g2, k);
    let (off, si) = g.strings[k];
    lemma_entry_kept(g, g2, si - 1);
    let ui = g.constant_pool[si - 1]->String_string_index;
    lemma_entry_kept(g, g2, ui - 1);
}

/// A zero byte of `data` stands at `o` or after it.
pub open spec fn zero_from(data: Seq<u8>, o: int) -> bool {
    exists|j: int| o <= j < data.len() && data[j] == 0
}

/// The records from `k0` on: their offsets increase, and each is 0 or
/// follows a zero byte of `data`.
pub open spec fn offsets_ordered(g: GeneratorView, data: Seq<u8>, k0: int) -> bool {
    &&& forall|k1: int, k2: int|
        k0 <= k1 < k2 < g.strings.len() ==> g.strings[k1].0 < g.strings[k2].0
    &&& forall|k: int|
        k0 <= k < g.strings.len() ==> g.strings[k].0 == 0 || data[g.strings[k].0 - 1] == 0
}

proof fn lemma_strings_from_resolve(data: Seq<u8>, i: int, start: int, g: GeneratorView, k0: int)
    requires
        g.wf(),
        data.len() <= usize::MAX,
        0 <= start <= i <= data.len(),
        start == 0 || data[start - 1] == 0,
        forall|j: int| start <= j < i ==> data[j] != 0,
        0 <= k0 <= g.strings.len(),
        forall|k: int| k0 <= k < g.strings.len() ==> record_resolves(g, data, k),
        forall|k: int| k0 <= k < g.strings.len() ==> g.strings[k].0 < start,
        offsets_ordered(g, data, k0),
        spec_strings_from(data, i, start, g) is Ok,
    ensures
        ({
            let g2 = spec_strings_from(data, i, start, g)->Ok_0;
            &&& g2.wf()
            &&& g.precedes(g2)
            &&& g2.functions == g.functions
            &&& forall|k: int| k0 <= k < g2.strings.len() ==> record_resolves(g2, data, k)
            &&& offsets_ordered(g2, data, k0)
            &&& forall|o: int|
                start <= o < data.len() && (o == start || data[o - 1] == 0) && zero_from(data, o)
                    ==> exists|k: int| k0 <= k < g2.strings.len() && #[trigger] g2.strings[k].0 == o
        }),
    decreases data.len() - i,
{
    if i == data.len() {
        lemma_precedes_refl(g);
        assert forall|o: int|
            start <= o < data.len() && (o == start || data[o - 1] == 0) && zero_from(data, o)
            implies exists|k: int| k0 <= k < g.strings.len() && #[trigger] g.strings[k].0 == o by {
            let j = choose|j: int| o <= j < data.len() && data[j] == 0;
            assert(data[j] != 0);
            if o != start {
                assert(data[o - 1] != 0);
            }
        }
    } else if data[i] == 0 {
        let s = data.subrange(start, i);
        let u = CpInfoView::Utf8 { value: s, source: TextSource::Own(g.constant_pool.len() as usize) };
        lemma_intern_names_entry(g, u);
        let (g1, ui) = g.intern(u);
        let c = CpInfoView::String { string_index: ui };
        lemma_intern_names_entry(g1, c);
        let (g2, si) = g1.intern(c);
        let g3 = g2.with_string((start as usize, si));
        lemma_precedes_trans(g, g1, g2);
        assert(g2.constant_pool =~= g3.constant_pool.subrange(0, g2.constant_pool.len() as int));
        assert(g2.functions =~= g3.functions.subrange(0, g2.functions.len() as int));
        assert(g2.strings =~= g3.strings.subrange(0, g2.strings.len() as int));
        lemma_precedes_trans(g, g2, g3);
        assert forall|k: int| k0 <= k < g3.strings.len() implies record_resolves(g3, data, k) by {
            if k < g.strings.len() {
                assert(record_resolves(g, data, k));
                lemma_record_persists(g, g3, k);
            } else {
                assert(k == g.strings.len());
                assert(g3.strings[k] == (start as usize, si));
                lemma_entry_kept(g1, g2, ui - 1);
                assert(data.subrange(start, start + s.len()) =~= s);
            }
        }
        assert forall|k: int| k0 <= k < g3.strings.len() implies g3.strings[k].0 < i + 1 by {
            if k < g.strings.len() {
                assert(g3.strings[k] == g.strings[k]);
            }
        }
        assert(offsets_ordered(g3, data, k0)) by {
            assert forall|k1: int, k2: int|
                k0 <= k1 < k2 < g3.strings.len() implies g3.strings[k1].0 < g3.strings[k2].0 by {
                assert(g3.strings[k1] == g.strings[k1]);
                if k2 < g.strings.len() {
                    assert(g3.strings[k2] == g.strings[k2]);
                }
            }
            assert forall|k: int| k0 <= k < g3.strings.len() implies g3.strings[k].0 == 0
                || data[g3.strings[k].0 - 1] == 0 by {
                if k < g.strings.len() {
                    assert(g3.strings[k] == g.strings[k]);
                }
            }
        }
        lemma_strings_from_resolve(data, i + 1, i + 1, g3, k0);
        let g4 = spec_strings_from(data, i + 1, i + 1, g3)->Ok_0;
        lemma_precedes_trans(g, g3, g4);
        let kn = g.strings.len() as int;
        lemma_record_kept(g3, g4, kn);
        assert forall|o: int|
            start <= o < data.len() && (o == start || data[o - 1] == 0) && zero_from(data, o)
            implies exists|k: int| k0 <= k < g4.strings.len() && #[trigger] g4.strings[k].0 == o by {
            if o == start {
                assert(g4.strings[kn].0 == o);
            } else {
                if o - 1 < i {
                    assert(data[o - 1] != 0);
                }
                assert(i + 1 <= o);
            }
        }
    } else {
        lemma_strings_from_resolve(data, i + 1, start, g, k0);
    }
}

/// After the strings of a data section are put into the pool, every
/// zero-terminated string of the data section has a new record at its
/// offset, the earlier pool entries and records stay, every record that pointed to a text entry
/// still does, every new record points to a `String` entry whose text entry
/// holds exactly the string found at the record's offset, and the new
/// offsets increase, each 0 or following a zero byte.
pub proof fn lemma_data_strings_resolve(data: Seq<u8>, g: GeneratorView)
    requires
        g.wf(),
        data.len() <= usize::MAX,
        spec_strings_from(data, 0, 0, g) is Ok,
    ensures
        ({
            let g2 = spec_strings_from(data, 0, 0, g)->Ok_0;
            &&& g2.wf()
            &&& g.precedes(g2)
            &&& g2.functions == g.functions
            &&& forall|k: int|
                0 <= k < g.strings.len() && record_points_to_text(g, k) ==> record_points_to_text(
                    g2,
                    k,
                )
            &&& forall|k: int|
                g.strings.len() <= k < g2.strings.len() ==> record_resolves(g2, data, k)
            &&& offsets_ordered(g2, data, g.strings.len() as int)
            &&& forall|o: int|
                0 <= o < data.len() && (o == 0 || data[o - 1] == 0) && zero_from(data, o) ==> exists|
                    k: int,
                | g.strings.len() <= k < g2.strings.len() && #[trigger] g2.strings[k].0 == o
        }),
{
    lemma_strings_from_resolve(data, 0, 0, g, g.strings.len() as int);
    let g2 = spec_strings_from(data, 0, 0, g)->Ok_0;
    assert forall|k: int| 0 <= k < g.strings.len() && record_points_to_text(g, k) implies record_points_to_text(g2, k) by {
        lemma_record_persists(g, g2, k);
    }
}

proof fn lemma_be16_injective(a: u16, b: u16)
    requires
        be16(a) == be16(b),
    ensures
        a == b,
{
    lemma_be16_roundtrip(a);
    lemma_be16_roundtrip(b);
}

proof fn lemma_be32_injective(a: u32, b: u32)
    requires
        be32(a) == be32(b),
    ensures
        a == b,
{
    lemma_be32_roundtrip(a);
    lemma_be32_roundtrip(b);
}

/// Different constant-pool entries are written as different bytes: the
/// encoding of an entry determines the entry, but for where a text entry's
/// bytes are kept, which is not written.
pub proof fn lemma_cp_info_bytes_injective(a: CpInfoView, b: CpInfoView)
    requires
        cp_info_bytes(a) == cp_info_bytes(b),
    ensures
        a == b || (a is Utf8 && b is Utf8 && a->Utf8_value == b->Utf8_value),
{
    let x = cp_info_bytes(a);
    let y = cp_info_bytes(b);
    assert(x[0] == y[0]);
    match a {
        CpInfoView::Utf8 { value: va, .. } => {
            let vb = b->Utf8_value;
            assert(va =~= x.subrange(3, x.len() as int));
            assert(vb =~= y.subrange(3, y.len() as int));
        },
        CpInfoView::Integer { value: va } => {
            let vb = b->Integer_value;
            assert(be32(va as u32) =~= x.subrange(1, 5));
            assert(be32(vb as u32) =~= y.subrange(1, 5));
            lemma_be32_injective(va as u32, vb as u32);
            assert(va as u32 == vb as u32 ==> va == vb) by (bit_vector);
        },
        CpInfoView::Long { value: va } => {
            let vb = b->Long_value;
            assert(be32((va >> 32) as u32) =~= x.subrange(1, 5));
            assert(be32((vb >> 32) as u32) =~= y.subrange(1, 5));
            assert(be32(va as u32) =~= x.subrange(5, 9));
            assert(be32(vb as u32) =~= y.subrange(5, 9));
            lemma_be32_injective((va >> 32) as u32, (vb >> 32) as u32);
            lemma_be32_injective(va as u32, vb as u32);
            assert(((va >> 32) as u32 == (vb >> 32) as u32 && va as u32 == vb as u32) ==> va == vb)
                by (bit_vector);
        },
        CpInfoView::Class { name_index: ia } => {
            assert(be16(ia) =~= x.subrange(1, 3));
            assert(be16(b->Class_name_index) =~= y.subrange(1, 3));
            lemma_be16_injective(ia, b->Class_name_index);
        },
        CpInfoView::String { string_index: ia } => {
            assert(be16(ia) =~= x.subrange(1, 3));
            assert(be16(b->String_string_index) =~= y.subrange(1, 3));
            lemma_be16_injective(ia, b->String_string_index);
        },
        CpInfoView::Methodref { class_index: ca, name_and_type_index: na } => {
            assert(be16(ca) =~= x.subrange(1, 3));
            assert(be16(b->Methodref_class_index) =~= y.subrange(1, 3));
            assert(be16(na) =~= x.subrange(3, 5));
            assert(be16(b->Methodref_name_and_type_index) =~= y.subrange(3, 5));
            lemma_be16_injective(ca, b->Methodref_class_index);
            lemma_be16_injective(na, b->Methodref_name_and_type_index);
        },
        CpInfoView::NameAndType { name_index: ia, type_index: ta } => {
            assert(be16(ia) =~= x.subrange(1, 3));
            assert(be16(b->NameAndType_name_index) =~= y.subrange(1, 3));
            assert(be16(ta) =~= x.subrange(3, 5));
            assert(be16(b->NameAndType_type_index) =~= y.subrange(3, 5));
            lemma_be16_injective(ia, b->NameAndType_name_index);
            lemma_be16_injective(ta, b->NameAndType_type_index);
        },
    }
}

/// The entry at 1-based index `i` of `pool` is a class whose name entry holds
/// `name`.
pub open spec fn names_class(pool: Seq<CpInfoView>, i: int, name: Seq<u8>) -> bool {
    &&& 1 <= i <= pool.len()
    &&& pool[i - 1] is Class
    &&& text_at(pool, pool[i - 1]->Class_name_index as int, name)
}

/// In the class body, the `this_class` field names the class `Hello` and the
/// `super_class` field names `java/lang/Object`; the pool written is the
/// generator's whole pool, and the earlier entries stay in place.
pub proof fn lemma_body_resolves(g: GeneratorView)
    requires
        g.wf(),
        spec_generate_body(g) is Ok,
    ensures
        ({
            let (bytes, g2) = spec_generate_body(g)->Ok_0;
            let p = g2.constant_pool;
            let at = 2 + pool_bytes(p).len() as int;
            &&& g2.wf()
            &&& pool_extends(g, g2)
            &&& bytes.subrange(2, at) == pool_bytes(p)
            &&& names_class(p, decode_be16(bytes.subrange(at + 2, at + 4)), this_class_name())
            &&& names_class(p, decode_be16(bytes.subrange(at + 4, at + 6)), object_class_name())
        }),
{
    let u1 = CpInfoView::Utf8 { value: object_class_name(), source: TextSource::ObjectClassName };
    lemma_intern_names_entry(g, u1);
    let (g1, super_name) = g.intern(u1);
    let c1 = CpInfoView::Class { name_index: super_name };
    lemma_intern_names_entry(g1, c1);
    let (g2, super_class) = g1.intern(c1);
    let u2 = CpInfoView::Utf8 { value: this_class_name(), source: TextSource::ThisClassName };
    lemma_intern_names_entry(g2, u2);
    let (g3, this_name) = g2.intern(u2);
    let c2 = CpInfoView::Class { name_index: this_name };
    lemma_intern_names_entry(g3, c2);
    let (g4, this_class) = g3.intern(c2);
    lemma_precedes_trans(g, g1, g2);
    lemma_precedes_trans(g, g2, g3);
    lemma_precedes_trans(g, g3, g4);
    lemma_precedes_trans(g1, g2, g3);
    lemma_precedes_trans(g1, g3, g4);
    lemma_precedes_trans(g2, g3, g4);
    lemma_entry_kept(g1, g4, super_name - 1);
    lemma_entry_kept(g2, g4, super_class - 1);
    lemma_entry_kept(g3, g4, this_name - 1);
    let p = g4.constant_pool;
    let bytes = class_body(g4, this_class, super_class);
    let at = 2 + pool_bytes(p).len() as int;
    assert(bytes.subrange(2, at) =~= pool_bytes(p));
    assert(bytes.subrange(at + 2, at + 4) =~= be16(this_class));
    assert(bytes.subrange(at + 4, at + 6) =~= be16(super_class));
    lemma_be16_roundtrip(this_class);
    lemma_be16_roundtrip(super_class);
}

/// Generating a list of functions adds one method per function, after the
/// methods already there, keeps the pool entries in place and the strings as
/// they were.
pub proof fn lemma_generate_funcs_one_method_each(funcs: Seq<Func>, g: GeneratorView)
    requires
        g.wf(),
        spec_generate_funcs(funcs, g) is Ok,
    ensures
        ({
            let g2 = spec_generate_funcs(funcs, g)->Ok_0;
            &&& g2.wf()
            &&& g.precedes(g2)
            &&& g2.functions.len() == g.functions.len() + funcs.len()
            &&& g2.strings == g.strings
        }),
    decreases funcs.len(),
{
    if funcs.len() == 0 {
        lemma_precedes_refl(g);
    } else {
        let f = funcs[0];
        lemma_generate_function_resolves(f.name@, f.params_count, f.auto_vars_count, f.body@, g);
        let g1 = spec_generate_function(
            f.name@,
            f.params_count,
            f.auto_vars_count,
            f.body@,
            g,
        )->Ok_0;
        lemma_generate_funcs_one_method_each(funcs.drop_first(), g1);
        lemma_precedes_trans(g, g1, spec_generate_funcs(funcs.drop_first(), g1)->Ok_0);
    }
}

/// Loading a literal pushes that literal: a literal up to 5 is the one byte
/// `iconst_<v>` (`0x03 + v`, at most `iconst_5`) and touches no constant; a
/// literal below 2^31 is `ldc` (`0x12`) of an index whose low byte is written
/// and whose entry is the `int` constant `v`; a literal up to `i64::MAX` is
/// `ldc2_w` (`0x14`) of the index of the `long` constant `v`; a larger
/// literal is refused at its location.
pub proof fn lemma_literal_load_pushes_the_literal(
    v: u64,
    loc: Loc,
    g: GeneratorView,
    locals: Seq<ArgType>,
)
    requires
        g.wf(),
    ensures
        v > 0x7fff_ffff_ffff_ffff ==> spec_load_arg(Arg::Literal(v), loc, g, locals) == Err::<
            (Seq<u8>, GeneratorView, ArgType),
            Fault,
        >(Fault::Missing(CodegenError { loc, missing: Missing::LiteralTooLarge })),
        spec_load_arg(Arg::Literal(v), loc, g, locals) is Ok ==> ({
            let (bytes, g2, t) = spec_load_arg(Arg::Literal(v), loc, g, locals)->Ok_0;
            &&& v <= 5 ==> {
                &&& bytes == seq![(0x03 + v) as u8]
                &&& 0x03 <= 0x03 + v <= 0x08
                &&& t == ArgType::Integer
                &&& g2 == g
            }
            &&& 5 < v < 0x8000_0000 ==> {
                &&& t == ArgType::Integer
                &&& bytes.len() == 2
                &&& bytes[0] == 0x12
                &&& (v as i32) as int == v as int
                &&& exists|i: int|
                    1 <= i <= g2.constant_pool.len() && #[trigger] g2.constant_pool[i - 1]
                        == CpInfoView::Integer { value: v as i32 } && bytes[1] == i as u8
            }
            &&& 0x8000_0000 <= v <= 0x7fff_ffff_ffff_ffff ==> {
                &&& t == ArgType::Long
                &&& bytes.len() == 3
                &&& bytes[0] == 0x14
                &&& (v as i64) as int == v as int
                &&& 1 <= decode_be16(bytes.subrange(1, 3)) <= g2.constant_pool.len()
                &&& g2.constant_pool[decode_be16(bytes.subrange(1, 3)) - 1] == CpInfoView::Long {
                    value: v as i64,
                }
            }
        }),
{
    if spec_load_arg(Arg::Literal(v), loc, g, locals) is Ok {
        let (bytes, g2, t) = spec_load_arg(Arg::Literal(v), loc, g, locals)->Ok_0;
        if 5 < v && v < 0x8000_0000 {
            let c = CpInfoView::Integer { value: v as i32 };
            lemma_intern_names_entry(g, c);
            let (g3, i) = g.intern(c);
            assert((v as i32) as int == v as int);
            assert(g3.constant_pool[i - 1] == c);
        } else if 0x8000_0000 <= v && v <= 0x7fff_ffff_ffff_ffff {
            let c = CpInfoView::Long { value: v as i64 };
            lemma_intern_names_entry(g, c);
            let (g3, i) = g.intern(c);
            assert(bytes.subrange(1, 3) =~= be16(i));
            lemma_be16_roundtrip(i);
            assert((v as i64) as int == v as int);
        }
    }
}

/// Only `+` is translated: an operation with any other binary operator never
/// generates code, and once both operands load it is refused as
/// `Missing::Binop` at its location.
pub proof fn lemma_only_plus_is_translated(op: OpWithLocation, g: GeneratorView, locals: Seq<ArgType>)
    ensures
        (op.opcode is Binop && spec_op(op, g, locals) is Ok) ==> op.opcode->Binop_binop
            == Binop::Plus,
        ({
            let loc = op.loc;
            op.opcode matches Op::Binop { binop, index, lhs, rhs } ==> (binop != Binop::Plus
                && spec_load_arg(lhs, loc, g, locals) is Ok && spec_load_arg(
                rhs,
                loc,
                spec_load_arg(lhs, loc, g, locals)->Ok_0.1,
                locals,
            ) is Ok ==> spec_op(op, g, locals) == Err::<
                (Seq<u8>, GeneratorView, Seq<ArgType>),
                Fault,
            >(Fault::Missing(CodegenError { loc, missing: Missing::Binop })))
        }),
{
}

/// A body whose generation succeeds holds no binary operation but `+`.
pub proof fn lemma_translated_body_adds_only(
    body: Seq<OpWithLocation>,
    g: GeneratorView,
    locals: Seq<ArgType>,
)
    requires
        spec_ops(body, g, locals) is Ok,
    ensures
        forall|k: int|
            0 <= k < body.len() && (#[trigger] body[k]).opcode is Binop ==> body[k].opcode->Binop_binop
                == Binop::Plus,
    decreases body.len(),
{
    if body.len() > 0 {
        lemma_only_plus_is_translated(body[0], g, locals);
        let (c, g1, l1) = spec_op(body[0], g, locals)->Ok_0;
        lemma_translated_body_adds_only(body.drop_first(), g1, l1);
        assert forall|k: int|
            0 <= k < body.len() && (#[trigger] body[k]).opcode is Binop implies body[k].opcode->Binop_binop
            == Binop::Plus by {
            if k > 0 {
                assert(body[k] == body.drop_first()[k - 1]);
            }
        }
    }
}

/// A function whose generation succeeds holds no binary operation but `+`.
pub proof fn lemma_translated_function_adds_only(
    name: Seq<u8>,
    params_count: usize,
    auto_vars_count: usize,
    body: Seq<OpWithLocation>,
    g: GeneratorView,
)
    requires
        spec_generate_function(name, params_count, auto_vars_count, body, g) is Ok,
    ensures
        forall|k: int|
            0 <= k < body.len() && (#[trigger] body[k]).opcode is Binop ==> body[k].opcode->Binop_binop
                == Binop::Plus,
{
    let n1 = CpInfoView::Utf8 {
        value: name,
        source: TextSource::Own(g.constant_pool.len() as usize),
    };
    let n2 = CpInfoView::Utf8 { value: void_descriptor(), source: TextSource::VoidDescriptor };
    let n3 = CpInfoView::Utf8 {
        value: code_attribute_name(),
        source: TextSource::CodeAttributeName,
    };
    let (g1, _) = g.intern(n1);
    let (g2, _) = g1.intern(n2);
    let (g3, _) = g2.intern(n3);
    lemma_translated_body_adds_only(body, g3, fresh_locals(auto_vars_count));
}

/// Storing an `int` into automatic variable `k` (numbered from 1) writes
/// `istore` of slot `k - 1` (`istore_0`..`istore_3` as `0x3b + slot`, else
/// `0x36` and the slot's low byte), records an `int` in that slot, and
/// leaves every other slot's recorded type as it was; storing a string
/// writes `astore` of the slot and changes no recorded type.
pub proof fn lemma_store_changes_only_its_slot(
    k: usize,
    t: ArgType,
    loc: Loc,
    locals: Seq<ArgType>,
)
    requires
        spec_store_value(k, t, loc, locals) is Ok,
    ensures
        ({
            let (bytes, l2) = spec_store_value(k, t, loc, locals)->Ok_0;
            &&& 1 <= k
            &&& l2.len() == locals.len()
            &&& t == ArgType::Integer ==> {
                &&& k <= locals.len()
                &&& l2[k - 1] == ArgType::Integer
                &&& forall|j: int| 0 <= j < locals.len() && j != k - 1 ==> l2[j] == locals[j]
                &&& bytes == if k - 1 <= 3 {
                    seq![(0x3b + k - 1) as u8]
                } else {
                    seq![0x36u8, (k - 1) as u8]
                }
            }
            &&& t == ArgType::String ==> {
                &&& l2 == locals
                &&& bytes == if k - 1 <= 3 {
                    seq![(0x4b + k - 1) as u8]
                } else {
                    seq![0x3au8, (k - 1) as u8]
                }
            }
            &&& t != ArgType::Integer && t != ArgType::String ==> false
        }),
{
}

/// The number of bytes of the first `k` parts of `fs`.
pub open spec fn bytes_before(fs: Seq<Seq<u8>>, k: int) -> int
    decreases k,
{
    if k <= 0 || fs.len() == 0 {
        0
    } else {
        fs[0].len() + bytes_before(fs.drop_first(), k - 1)
    }
}

/// The parts laid one after the other: part `k` stands after the parts
/// before it, and the whole is as long as all the parts.
pub proof fn lemma_concat_lays_out_parts(fs: Seq<Seq<u8>>)
    ensures
        concat(fs).len() == bytes_before(fs, fs.len() as int),
        forall|k: int| 0 <= k ==> 0 <= #[trigger] bytes_before(fs, k),
        forall|k: int|
            0 <= k < fs.len() ==> bytes_before(fs, k) + fs[k].len() <= concat(fs).len()
                && concat(fs).subrange(bytes_before(fs, k), bytes_before(fs, k) + fs[k].len())
                == #[trigger] fs[k],
    decreases fs.len(),
{
    if fs.len() > 0 {
        let d = fs.drop_first();
        lemma_concat_lays_out_parts(d);
        let a = fs[0];
        let whole = concat(fs);
        assert(whole == a + concat(d));
        assert forall|k: int| 0 <= k implies 0 <= #[trigger] bytes_before(fs, k) by {
            if k > 0 {
                assert(0 <= bytes_before(d, k - 1));
            }
        }
        assert(bytes_before(fs, fs.len() as int) == a.len() + bytes_before(d, d.len() as int));
        assert forall|k: int| 0 <= k < fs.len() implies bytes_before(fs, k) + fs[k].len()
            <= whole.len() && whole.subrange(bytes_before(fs, k), bytes_before(fs, k) + fs[k].len())
            == #[trigger] fs[k] by {
            if k == 0 {
                assert(whole.subrange(0, a.len() as int) =~= a);
            } else {
                assert(fs[k] == d[k - 1]);
                let b = bytes_before(d, k - 1);
                assert(0 <= b);
                assert(bytes_before(fs, k) == a.len() + b);
                assert(b + d[k - 1].len() <= concat(d).len());
                assert(concat(d).subrange(b, b + d[k - 1].len()) == d[k - 1]);
                assert(whole.subrange(a.len() + b, a.len() + b + fs[k].len()) =~= concat(d).subrange(
                    b,
                    b + fs[k].len(),
                ));
            }
        }
    }
}

/// In the class body, after the count of methods (the number of methods
/// generated, modulo 2^16) come the generated methods, each once and in the
/// order they were generated, then the two bytes of the attribute count;
/// writing the body adds no method.
pub proof fn lemma_body_methods_in_order(g: GeneratorView)
    requires
        g.wf(),
        spec_generate_body(g) is Ok,
    ensures
        ({
            let (bytes, g2) = spec_generate_body(g)->Ok_0;
            let fs = g2.functions;
            let m_at = 2 + pool_bytes(g2.constant_pool).len() as int + 12;
            &&& fs == g.functions
            &&& decode_be16(bytes.subrange(m_at - 2, m_at)) == fs.len() as u16
            &&& bytes.len() == m_at + bytes_before(fs, fs.len() as int) + 2
            &&& forall|k: int|
                0 <= k < fs.len() ==> bytes.subrange(
                    m_at + bytes_before(fs, k),
                    m_at + bytes_before(fs, k) + fs[k].len(),
                ) == #[trigger] fs[k]
        }),
{
    let u1 = CpInfoView::Utf8 { value: object_class_name(), source: TextSource::ObjectClassName };
    let (g1, super_name) = g.intern(u1);
    let (g2, super_class) = g1.intern(CpInfoView::Class { name_index: super_name });
    let u2 = CpInfoView::Utf8 { value: this_class_name(), source: TextSource::ThisClassName };
    let (g3, this_name) = g2.intern(u2);
    let (g4, this_class) = g3.intern(CpInfoView::Class { name_index: this_name });
    let bytes = class_body(g4, this_class, super_class);
    let fs = g4.functions;
    let m_at = 2 + pool_bytes(g4.constant_pool).len() as int + 12;
    lemma_concat_lays_out_parts(fs);
    assert(bytes.subrange(m_at - 2, m_at) =~= be16(fs.len() as u16));
    lemma_be16_roundtrip(fs.len() as u16);
    let whole = concat(fs);
    assert(bytes.subrange(m_at, m_at + whole.len() as int) =~= whole);
    assert forall|k: int| 0 <= k < fs.len() implies bytes.subrange(
        m_at + bytes_before(fs, k),
        m_at + bytes_before(fs, k) + fs[k].len(),
    ) == #[trigger] fs[k] by {
        let b = bytes_before(fs, k);
        assert(0 <= b);
        assert(b + fs[k].len() <= whole.len());
        assert(whole.subrange(b, b + fs[k].len()) == fs[k]);
        assert(bytes.subrange(m_at + b, m_at + b + fs[k].len()) =~= whole.subrange(
            b,
            b + fs[k].len(),
        ));
    }
}

/// Loading automatic variable `k` (numbered from 1) reads slot `k - 1` with
/// the load instruction of the type recorded there (`iload`, `lload` or
/// `aload`: the one-byte forms `0x1a`, `0x1e`, `0x2a` plus the slot for the
/// first four slots, else `0x15`, `0x16`, `0x19` and the slot's low byte),
/// gives that type, and touches no constant. A variable out of range or not
/// written yet cannot be loaded.
pub proof fn lemma_auto_var_load(k: usize, loc: Loc, g: GeneratorView, locals: Seq<ArgType>)
    ensures
        (k == 0 || k > locals.len() || locals[k - 1] == ArgType::Uninitialized) ==> spec_load_arg(
            Arg::AutoVar(k),
            loc,
            g,
            locals,
        ) == Err::<(Seq<u8>, GeneratorView, ArgType), Fault>(Fault::Undefined),
        spec_load_arg(Arg::AutoVar(k), loc, g, locals) is Ok ==> ({
            let (bytes, g2, t) = spec_load_arg(Arg::AutoVar(k), loc, g, locals)->Ok_0;
            let slot = k - 1;
            &&& 1 <= k <= locals.len()
            &&& t == locals[slot]
            &&& g2 == g
            &&& t == ArgType::Integer ==> bytes == if slot <= 3 {
                seq![(0x1a + slot) as u8]
            } else {
                seq![0x15u8, slot as u8]
            }
            &&& t == ArgType::Long ==> bytes == if slot <= 3 {
                seq![(0x1e + slot) as u8]
            } else {
                seq![0x16u8, slot as u8]
            }
            &&& t == ArgType::String ==> bytes == if slot <= 3 {
                seq![(0x2a + slot) as u8]
            } else {
                seq![0x19u8, slot as u8]
            }
            &&& t != ArgType::Uninitialized
        }),
{
}

/// How many of the first `k` records of `strings` stand at offset `o`.
pub open spec fn records_at(strings: Seq<(usize, u16)>, o: usize, k: int) -> int
    decreases k,
{
    if k <= 0 || strings.len() == 0 {
        0
    } else {
        (if strings[0].0 == o {
            1int
        } else {
            0
        }) + records_at(strings.drop_first(), o, k - 1)
    }
}

proof fn lemma_string_loads_layout(strings: Seq<(usize, u16)>, o: usize)
    ensures
        string_loads(strings, o).len() == 2 * records_at(strings, o, strings.len() as int),
        forall|k: int| 0 <= k ==> 0 <= #[trigger] records_at(strings, o, k),
        forall|k: int|
            0 <= k < strings.len() && strings[k].0 == o ==> {
                let c = #[trigger] records_at(strings, o, k);
                &&& 2 * c + 1 < string_loads(strings, o).len()
                &&& string_loads(strings, o)[2 * c] == 0x12
                &&& string_loads(strings, o)[2 * c + 1] == strings[k].1 as u8
            },
    decreases strings.len(),
{
    if strings.len() > 0 {
        let d = strings.drop_first();
        lemma_string_loads_layout(d, o);
        let head: Seq<u8> = if strings[0].0 == o {
            seq![0x12u8, strings[0].1 as u8]
        } else {
            seq![]
        };
        let whole = string_loads(strings, o);
        assert(whole == head + string_loads(d, o));
        assert forall|k: int| 0 <= k implies 0 <= #[trigger] records_at(strings, o, k) by {
            if k > 0 {
                assert(0 <= records_at(d, o, k - 1));
            }
        }
        assert(records_at(strings, o, strings.len() as int) == head.len() / 2 + records_at(
            d,
            o,
            d.len() as int,
        ));
        assert forall|k: int| 0 <= k < strings.len() && strings[k].0 == o implies {
            let c = #[trigger] records_at(strings, o, k);
            &&& 2 * c + 1 < whole.len()
            &&& whole[2 * c] == 0x12
            &&& whole[2 * c + 1] == strings[k].1 as u8
        } by {
            if k > 0 {
                assert(strings[k] == d[k - 1]);
                let c = records_at(d, o, k - 1);
                assert(0 <= c);
                assert(records_at(strings, o, k) == head.len() / 2 + c);
                assert(whole[head.len() + 2 * c] == string_loads(d, o)[2 * c]);
                assert(whole[head.len() + 2 * c + 1] == string_loads(d, o)[2 * c + 1]);
            }
        }
    }
}

/// Loading the data-section string at offset `o` pushes it by `ldc`
/// (`0x12`) once for each string record at that offset, in the order of the
/// records, with the low byte of the record's pool index; it gives a string
/// and touches no constant. With no record at `o`, nothing is written.
pub proof fn lemma_data_offset_load(o: usize, loc: Loc, g: GeneratorView, locals: Seq<ArgType>)
    ensures
        spec_load_arg(Arg::DataOffset(o), loc, g, locals) is Ok,
        ({
            let (bytes, g2, t) = spec_load_arg(Arg::DataOffset(o), loc, g, locals)->Ok_0;
            let strings = g.strings;
            &&& t == ArgType::String
            &&& g2 == g
            &&& bytes.len() == 2 * records_at(strings, o, strings.len() as int)
            &&& forall|k: int|
                0 <= k < strings.len() && strings[k].0 == o ==> {
                    let c = #[trigger] records_at(strings, o, k);
                    &&& 0 <= c
                    &&& 2 * c + 1 < bytes.len()
                    &&& bytes[2 * c] == 0x12
                    &&& bytes[2 * c + 1] == strings[k].1 as u8
                }
        }),
{
    lemma_string_loads_layout(g.strings, o);
}

/// Each constant-pool entry is written as the class-file format lays it out:
/// its tag (1 text, 3 `int`, 5 `long`, 7 class, 8 string, 10 method
/// reference, 12 name and type) and its fields in big-endian order; a text
/// entry as its length (modulo 2^16) and its bytes; an `int` as its two's
/// complement; a `long` as the high and low words of its two's complement.
pub proof fn lemma_cp_info_fields(c: CpInfoView)
    ensures
        ({
            let b = cp_info_bytes(c);
            match c {
                CpInfoView::Utf8 { value, .. } => {
                    &&& b[0] == 1
                    &&& b.len() == 3 + value.len()
                    &&& decode_be16(b.subrange(1, 3)) == value.len() as u16
                    &&& b.subrange(3, b.len() as int) == value
                },
                CpInfoView::Integer { value } => {
                    &&& b[0] == 3
                    &&& b.len() == 5
                    &&& decode_be32(b.subrange(1, 5)) == if value >= 0 {
                        value as int
                    } else {
                        value + 0x1_0000_0000
                    }
                },
                CpInfoView::Long { value } => {
                    &&& b[0] == 5
                    &&& b.len() == 9
                    &&& decode_be32(b.subrange(1, 5)) * 0x1_0000_0000 + decode_be32(b.subrange(5, 9))
                        == if value >= 0 {
                        value as int
                    } else {
                        value + 0x1_0000_0000_0000_0000
                    }
                },
                CpInfoView::Class { name_index } => {
                    &&& b[0] == 7
                    &&& b.len() == 3
                    &&& decode_be16(b.subrange(1, 3)) == name_index
                },
                CpInfoView::String { string_index } => {
                    &&& b[0] == 8
                    &&& b.len() == 3
                    &&& decode_be16(b.subrange(1, 3)) == string_index
                },
                CpInfoView::Methodref { class_index, name_and_type_index } => {
                    &&& b[0] == 10
                    &&& b.len() == 5
                    &&& decode_be16(b.subrange(1, 3)) == class_index
                    &&& decode_be16(b.subrange(3, 5)) == name_and_type_index
                },
                CpInfoView::NameAndType { name_index, type_index } => {
                    &&& b[0] == 12
                    &&& b.len() == 5
                    &&& decode_be16(b.subrange(1, 3)) == name_index
                    &&& decode_be16(b.subrange(3, 5)) == type_index
                },
            }
        }),
{
    let b = cp_info_bytes(c);
    match c {
        CpInfoView::Utf8 { value, .. } => {
            let n = value.len() as u16;
            assert(b.subrange(1, 3) =~= be16(n));
            lemma_be16_roundtrip(n);
            assert(b.subrange(3, b.len() as int) =~= value);
        },
        CpInfoView::Integer { value } => {
            assert(b.subrange(1, 5) =~= be32(value as u32));
            lemma_be32_roundtrip(value as u32);
            assert(value >= 0 ==> (value as u32) as int == value as int) by (bit_vector);
            assert(value < 0 ==> (value as u32) as int == value + 0x1_0000_0000) by (bit_vector);
        },
        CpInfoView::Long { value } => {
            let hi = (value >> 32) as u32;
            let lo = value as u32;
            assert(b.subrange(1, 5) =~= be32(hi));
            assert(b.subrange(5, 9) =~= be32(lo));
            lemma_be32_roundtrip(hi);
            lemma_be32_roundtrip(lo);
            assert((hi as u64) * 0x1_0000_0000u64 + (lo as u64) == value as u64) by (bit_vector)
                requires
                    hi == (value >> 32) as u32,
                    lo == value as u32,
            ;
            assert(value >= 0 ==> (value as u64) as int == value as int) by (bit_vector);
            assert(value < 0 ==> (value as u64) as int == value + 0x1_0000_0000_0000_0000)
                by (bit_vector);
        },
        CpInfoView::Class { name_index } => {
            assert(b.subrange(1, 3) =~= be16(name_index));
            lemma_be16_roundtrip(name_index);
        },
        CpInfoView::String { string_index } => {
            assert(b.subrange(1, 3) =~= be16(string_index));
            lemma_be16_roundtrip(string_index);
        },
        CpInfoView::Methodref { class_index, name_and_type_index } => {
            assert(b.subrange(1, 3) =~= be16(class_index));
            assert(b.subrange(3, 5) =~= be16(name_and_type_index));
            lemma_be16_roundtrip(class_index);
            lemma_be16_roundtrip(name_and_type_index);
        },
        CpInfoView::NameAndType { name_index, type_index } => {
            assert(b.subrange(1, 3) =~= be16(name_index));
            assert(b.subrange(3, 5) =~= be16(type_index));
            lemma_be16_roundtrip(name_index);
            lemma_be16_roundtrip(type_index);
        },
    }
}

/// The generator after a function's name, the descriptor `()V` and the
/// attribute name `Code` went into its pool, where its body is generated.
pub open spec fn after_method_names(name: Seq<u8>, g: GeneratorView) -> GeneratorView {
    let n1 = CpInfoView::Utf8 {
        value: name,
        source: TextSource::Own(g.constant_pool.len() as usize),
    };
    let n2 = CpInfoView::Utf8 { value: void_descriptor(), source: TextSource::VoidDescriptor };
    let n3 = CpInfoView::Utf8 {
        value: code_attribute_name(),
        source: TextSource::CodeAttributeName,
    };
    g.intern(n1).0.intern(n2).0.intern(n3).0
}

/// The method added for a function is laid out as a `method_info`: access
/// flags `ACC_PUBLIC | ACC_STATIC` (0x0009), one attribute, whose length is
/// the code's length plus 12, a maximal stack and a local count that are both
/// the number of parameters plus automatic variables (modulo 2^16), the
/// code's length, the code generated for the body, and no exception table and
/// no attributes of its own.
pub proof fn lemma_method_layout(
    name: Seq<u8>,
    params_count: usize,
    auto_vars_count: usize,
    body: Seq<OpWithLocation>,
    g: GeneratorView,
)
    requires
        g.wf(),
        spec_generate_function(name, params_count, auto_vars_count, body, g) is Ok,
    ensures
        ({
            let g2 = spec_generate_function(name, params_count, auto_vars_count, body, g)->Ok_0;
            let m = g2.functions.last();
            let code_len = m.len() - 26;
            let code = spec_ops(
                body,
                after_method_names(name, g),
                fresh_locals(auto_vars_count),
            )->Ok_0.0;
            &&& m.len() >= 26
            &&& decode_be16(m.subrange(0, 2)) == 0x0009
            &&& decode_be16(m.subrange(6, 8)) == 1
            &&& decode_be32(m.subrange(10, 14)) == (code_len + 12) as u32
            &&& decode_be16(m.subrange(14, 16)) == (params_count + auto_vars_count) as u16
            &&& decode_be16(m.subrange(16, 18)) == (params_count + auto_vars_count) as u16
            &&& decode_be32(m.subrange(18, 22)) == code_len as u32
            &&& m.subrange(22, 22 + code_len) == code
            &&& m.subrange(m.len() - 4, m.len() as int) == seq![0u8, 0u8, 0u8, 0u8]
        }),
{
    let n1 = CpInfoView::Utf8 {
        value: name,
        source: TextSource::Own(g.constant_pool.len() as usize),
    };
    let n2 = CpInfoView::Utf8 { value: void_descriptor(), source: TextSource::VoidDescriptor };
    let n3 = CpInfoView::Utf8 {
        value: code_attribute_name(),
        source: TextSource::CodeAttributeName,
    };
    let (g1, i1) = g.intern(n1);
    let (g2, i2) = g1.intern(n2);
    let (g3, i3) = g2.intern(n3);
    let (code, g4, _) = spec_ops(body, g3, fresh_locals(auto_vars_count))->Ok_0;
    let ml = (params_count + auto_vars_count) as u16;
    let m = method_info(i1, i2, i3, ml, code);
    let out = spec_generate_function(name, params_count, auto_vars_count, body, g)->Ok_0;
    assert(out == g4.with_function(m));
    assert(out.functions.last() == m);
    let cl = code.len() as int;
    assert(m.len() == 26 + cl);
    assert(m.subrange(0, 2) =~= be16(0x0009));
    assert(m.subrange(6, 8) =~= be16(1));
    assert(m.subrange(10, 14) =~= be32((cl + 12) as u32));
    assert(m.subrange(14, 16) =~= be16(ml));
    assert(m.subrange(16, 18) =~= be16(ml));
    assert(m.subrange(18, 22) =~= be32(cl as u32));
    assert(m.subrange(22, 22 + cl) =~= code);
    assert(m.subrange(m.len() - 4, m.len() as int) =~= seq![0u8, 0u8, 0u8, 0u8]);
    lemma_be16_roundtrip(0x0009);
    lemma_be16_roundtrip(1);
    lemma_be16_roundtrip(ml);
    lemma_be32_roundtrip((cl + 12) as u32);
    lemma_be32_roundtrip(cl as u32);
}

/// The encodings of the entries of `pool`, in order.
pub open spec fn entry_encodings(pool: Seq<CpInfoView>) -> Seq<Seq<u8>> {
    pool.map_values(|c: CpInfoView| cp_info_bytes(c))
}

proof fn lemma_pool_bytes_is_entries(pool: Seq<CpInfoView>)
    ensures
        pool_bytes(pool) == concat(entry_encodings(pool)),
    decreases pool.len(),
{
    if pool.len() > 0 {
        lemma_pool_bytes_is_entries(pool.drop_first());
        assert(entry_encodings(pool).drop_first() =~= entry_encodings(pool.drop_first()));
        assert(entry_encodings(pool)[0] == cp_info_bytes(pool[0]));
    } else {
        assert(entry_encodings(pool) =~= Seq::<Seq<u8>>::empty());
    }
}

/// The class body begins with the constant-pool count, one more than the
/// number of entries (modulo 2^16), followed by every entry of the pool,
/// each once, in pool order, encoded as its `cp_info` structure.
pub proof fn lemma_body_pool_layout(g: GeneratorView)
    requires
        g.wf(),
        spec_generate_body(g) is Ok,
    ensures
        ({
            let (bytes, g2) = spec_generate_body(g)->Ok_0;
            let p = g2.constant_pool;
            let parts = entry_encodings(p);
            &&& decode_be16(bytes.subrange(0, 2)) == (p.len() + 1) as u16
            &&& pool_bytes(p).len() == bytes_before(parts, p.len() as int)
            &&& forall|k: int|
                0 <= k < p.len() ==> bytes.subrange(
                    2 + bytes_before(parts, k),
                    2 + bytes_before(parts, k) + parts[k].len(),
                ) == cp_info_bytes(#[trigger] p[k])
        }),
{
    let u1 = CpInfoView::Utf8 { value: object_class_name(), source: TextSource::ObjectClassName };
    let (g1, super_name) = g.intern(u1);
    let (g2, super_class) = g1.intern(CpInfoView::Class { name_index: super_name });
    let u2 = CpInfoView::Utf8 { value: this_class_name(), source: TextSource::ThisClassName };
    let (g3, this_name) = g2.intern(u2);
    let (g4, this_class) = g3.intern(CpInfoView::Class { name_index: this_name });
    let bytes = class_body(g4, this_class, super_class);
    let p = g4.constant_pool;
    let parts = entry_encodings(p);
    lemma_pool_bytes_is_entries(p);
    lemma_concat_lays_out_parts(parts);
    let n = (p.len() + 1) as u16;
    assert(bytes.subrange(0, 2) =~= be16(n));
    lemma_be16_roundtrip(n);
    let whole = pool_bytes(p);
    assert(bytes.subrange(2, 2 + whole.len() as int) =~= whole);
    assert forall|k: int| 0 <= k < p.len() implies bytes.subrange(
        2 + bytes_before(parts, k),
        2 + bytes_before(parts, k) + parts[k].len(),
    ) == cp_info_bytes(#[trigger] p[k]) by {
        let b = bytes_before(parts, k);
        assert(parts[k] == cp_info_bytes(p[k]));
        assert(0 <= b);
        assert(b + parts[k].len() <= whole.len());
        assert(whole.subrange(b, b + parts[k].len()) == parts[k]);
        assert(bytes.subrange(2 + b, 2 + b + parts[k].len()) =~= whole.subrange(
            b,
            b + parts[k].len(),
        ));
    }
}

/// An assignment `auto[k] = arg` is the code that loads `arg` followed by the
/// code that stores a value of the loaded type into `k`; an addition
/// `auto[k] = lhs + rhs` loads `lhs`, then `rhs` (from the pool the first
/// load left), then adds (`iadd`, 0x60) and stores an `int` into `k`. The
/// local types after are those the store leaves, and the pool is the one the
/// loads leave.
pub proof fn lemma_assignments_load_then_store(op: OpWithLocation, g: GeneratorView, locals: Seq<ArgType>)
    ensures
        ({
            let loc = op.loc;
            op.opcode matches Op::AutoAssign { index, arg } ==> (spec_op(op, g, locals) is Ok <==> (
            spec_load_arg(arg, loc, g, locals) is Ok && spec_store_value(
                index,
                spec_load_arg(arg, loc, g, locals)->Ok_0.2,
                loc,
                locals,
            ) is Ok)) && (spec_op(op, g, locals) is Ok ==> {
                let (lc, lg, t) = spec_load_arg(arg, loc, g, locals)->Ok_0;
                let (sc, sl) = spec_store_value(index, t, loc, locals)->Ok_0;
                spec_op(op, g, locals)->Ok_0 == (lc + sc, lg, sl)
            })
        }),
        ({
            let loc = op.loc;
            op.opcode matches Op::Binop { binop, index, lhs, rhs } ==> (spec_op(op, g, locals) is Ok
                ==> {
                let (c1, g1, _) = spec_load_arg(lhs, loc, g, locals)->Ok_0;
                let (c2, g2, _) = spec_load_arg(rhs, loc, g1, locals)->Ok_0;
                let (c3, l3) = spec_store_value(index, ArgType::Integer, loc, locals)->Ok_0;
                &&& spec_load_arg(lhs, loc, g, locals) is Ok
                &&& spec_load_arg(rhs, loc, g1, locals) is Ok
                &&& spec_store_value(index, ArgType::Integer, loc, locals) is Ok
                &&& spec_op(op, g, locals)->Ok_0 == (c1 + c2 + seq![0x60u8] + c3, g2, l3)
            })
        }),
        ({
            let loc = op.loc;
            op.opcode matches Op::Binop { binop, index, lhs, rhs } ==> (binop == Binop::Plus
                && spec_load_arg(lhs, loc, g, locals) is Ok && spec_load_arg(
                rhs,
                loc,
                spec_load_arg(lhs, loc, g, locals)->Ok_0.1,
                locals,
            ) is Ok && spec_store_value(index, ArgType::Integer, loc, locals) is Ok ==> spec_op(
                op,
                g,
                locals,
            ) is Ok)
        }),
{
}

/// A function is generated whenever its body is: with room in the pool for
/// its three names and a parameter count that adds up, a body whose code is
/// generated from the state after the names makes the function generated.
pub proof fn lemma_function_generated_when_body_is(
    name: Seq<u8>,
    params_count: usize,
    auto_vars_count: usize,
    body: Seq<OpWithLocation>,
    g: GeneratorView,
)
    requires
        g.wf(),
        g.constant_pool.len() + 3 <= crate::class_file::MAX_CONSTANT_POOL_ENTRIES,
        params_count + auto_vars_count <= usize::MAX,
        spec_ops(body, after_method_names(name, g), fresh_locals(auto_vars_count)) is Ok,
    ensures
        spec_generate_function(name, params_count, auto_vars_count, body, g) is Ok,
{
    let n1 = CpInfoView::Utf8 {
        value: name,
        source: TextSource::Own(g.constant_pool.len() as usize),
    };
    let n2 = CpInfoView::Utf8 { value: void_descriptor(), source: TextSource::VoidDescriptor };
    let n3 = CpInfoView::Utf8 {
        value: code_attribute_name(),
        source: TextSource::CodeAttributeName,
    };
    lemma_intern_names_entry(g, n1);
    let (g1, _) = g.intern(n1);
    if !g1.holds(n2) {
        assert(crate::class_file::text_in_place(n2, g1.constant_pool.len() as int));
    }
    lemma_intern_names_entry(g1, n2);
    let (g2, _) = g1.intern(n2);
    if !g2.holds(n3) {
        assert(crate::class_file::text_in_place(n3, g2.constant_pool.len() as int));
    }
}

/// With room in the pool for two entries per byte of the data section, its
/// strings are always put into the pool.
pub proof fn lemma_strings_fit(data: Seq<u8>, g: GeneratorView)
    requires
        g.wf(),
        g.constant_pool.len() + 2 * data.len() <= crate::class_file::MAX_CONSTANT_POOL_ENTRIES,
    ensures
        spec_strings_from(data, 0, 0, g) is Ok,
{
    lemma_strings_from_fit(data, 0, 0, g);
}

proof fn lemma_strings_from_fit(data: Seq<u8>, i: int, start: int, g: GeneratorView)
    requires
        g.wf(),
        0 <= i <= data.len(),
        g.constant_pool.len() + 2 * (data.len() - i) <= crate::class_file::MAX_CONSTANT_POOL_ENTRIES,
    ensures
        spec_strings_from(data, i, start, g) is Ok,
    decreases data.len() - i,
{
    if i < data.len() {
        if data[i] == 0 {
            let u = CpInfoView::Utf8 {
                value: data.subrange(start, i),
                source: TextSource::Own(g.constant_pool.len() as usize),
            };
            lemma_intern_names_entry(g, u);
            let (g1, ui) = g.intern(u);
            let c = CpInfoView::String { string_index: ui };
            lemma_intern_names_entry(g1, c);
            let (g2, si) = g1.intern(c);
            let g3 = g2.with_string((start as usize, si));
            lemma_strings_from_fit(data, i + 1, i + 1, g3);
        } else {
            lemma_strings_from_fit(data, i + 1, start, g);
        }
    }
}

/// With room in the pool for four more entries, the class body is always
/// written.
pub proof fn lemma_body_fits(g: GeneratorView)
    requires
        g.wf(),
        g.constant_pool.len() + 4 <= crate::class_file::MAX_CONSTANT_POOL_ENTRIES,
    ensures
        spec_generate_body(g) is Ok,
{
    let u1 = CpInfoView::Utf8 { value: object_class_name(), source: TextSource::ObjectClassName };
    lemma_intern_names_entry(g, u1);
    let (g1, super_name) = g.intern(u1);
    let c1 = CpInfoView::Class { name_index: super_name };
    lemma_intern_names_entry(g1, c1);
    let (g2, _) = g1.intern(c1);
    let u2 = CpInfoView::Utf8 { value: this_class_name(), source: TextSource::ThisClassName };
    lemma_intern_names_entry(g2, u2);
    let (g3, this_name) = g2.intern(u2);
    lemma_intern_names_entry(g3, CpInfoView::Class { name_index: this_name });
}

} // verus!
