//! Sizes, alignments and member offsets of LLVM types, as debug
//! information describes them. A type is given by its shape: what the
//! layout computation reads of it.
use vstd::prelude::*;

verus! {

/// The shape of an LLVM type.
#[derive(Debug)]
pub enum LlvmShape {
    /// An integer of the given bit width.
    Int(u32),
    /// A float whose store size LLVM reports in bytes.
    Float(u64),
    Pointer,
    /// An array of `len` elements.
    Array(Box<LlvmShape>, u64),
    Vector,
    /// A struct with the given field types, in order.
    Struct(Vec<LlvmShape>),
}

/// `o` rounded up to a multiple of `a`.
pub open spec fn round_up(o: int, a: int) -> int {
    if o % a == 0 {
        o
    } else {
        (o / a + 1) * a
    }
}

/// Size and alignment in bytes: integers take whole bytes and align to at
/// most 8; a float aligns to its size; pointers are 8 bytes, vectors 16;
/// an array is its elements in a row; a struct lays its fields out in
/// order, each at the next multiple of its alignment, and aligns to the
/// largest field alignment (1 when it has none).
pub open spec fn size_align(t: LlvmShape) -> (int, int)
    decreases t,
{
    match t {
        LlvmShape::Int(bits) => {
            let s = (bits + 7) / 8;
            (s, if s < 8 {
                s
            } else {
                8
            })
        },
        LlvmShape::Float(s) => (s as int, (s as u32) as int),
        LlvmShape::Pointer => (8, 8),
        LlvmShape::Array(e, n) => {
            let (es, ea) = size_align(*e);
            (es * n, ea)
        },
        LlvmShape::Vector => (16, 16),
        LlvmShape::Struct(fs) => struct_layout(fs@),
    }
}

/// The end offset and alignment of fields laid out in order.
pub open spec fn struct_layout(fs: Seq<LlvmShape>) -> (int, int)
    decreases fs,
{
    if fs.len() == 0 {
        (0, 1)
    } else {
        let (o, a) = struct_layout(fs.subrange(0, fs.len() - 1));
        let (s, fa) = size_align(fs[fs.len() - 1]);
        (round_up(o, fa) + s, if a < fa {
            fa
        } else {
            a
        })
    }
}

/// The layout can be computed: integers have bits, floats a size that
/// fits in `u32`, and no size or offset exceeds `u64::MAX`.
pub open spec fn layout_ok(t: LlvmShape) -> bool
    decreases t,
{
    match t {
        LlvmShape::Int(bits) => bits >= 1,
        LlvmShape::Float(s) => 1 <= s <= u32::MAX,
        LlvmShape::Pointer => true,
        LlvmShape::Array(e, n) => layout_ok(*e) && size_align(*e).0 * n <= u64::MAX,
        LlvmShape::Vector => true,
        LlvmShape::Struct(fs) => fields_ok(fs@),
    }
}

pub open spec fn fields_ok(fs: Seq<LlvmShape>) -> bool
    decreases fs,
{
    if fs.len() == 0 {
        true
    } else {
        let init = fs.subrange(0, fs.len() - 1);
        let (o, a) = struct_layout(init);
        let (s, fa) = size_align(fs[fs.len() - 1]);
        fields_ok(init) && layout_ok(fs[fs.len() - 1]) && round_up(o, fa) + s <= u64::MAX
    }
}

/// Alignments are at least 1 and sizes are not negative, for a shape the
/// layout can be computed for.
proof fn lemma_size_align_pos(t: LlvmShape)
    requires
        layout_ok(t),
    ensures
        size_align(t).0 >= 0,
        1 <= size_align(t).1 <= u32::MAX,
    decreases t,
{
    match t {
        LlvmShape::Array(e, n) => {
            lemma_size_align_pos(*e);
            assert(size_align(*e).0 * n >= 0) by (nonlinear_arith)
                requires
                    size_align(*e).0 >= 0,
                    n >= 0,
            ;
        },
        LlvmShape::Struct(fs) => {
            lemma_struct_layout_pos(fs@);
        },
        LlvmShape::Float(s) => {
            assert((s as u32) as int == s as int);
        },
        _ => {},
    }
}

proof fn lemma_struct_layout_pos(fs: Seq<LlvmShape>)
    requires
        fields_ok(fs),
    ensures
        struct_layout(fs).0 >= 0,
        1 <= struct_layout(fs).1 <= u32::MAX,
    decreases fs,
{
    if fs.len() > 0 {
        let init = fs.subrange(0, fs.len() - 1);
        lemma_struct_layout_pos(init);
        lemma_size_align_pos(fs[fs.len() - 1]);
        let (o, a) = struct_layout(init);
        let (s, fa) = size_align(fs[fs.len() - 1]);
        lemma_round_up(o, fa);
    }
}

/// Rounding up gives the least multiple of `a` not below `o`.
pub proof fn lemma_round_up(o: int, a: int)
    requires
        o >= 0,
        a >= 1,
    ensures
        round_up(o, a) >= o,
        round_up(o, a) % a == 0,
        round_up(o, a) < o + a,
{
    if o % a != 0 {
        assert((o / a + 1) * a == (o / a) * a + a) by (nonlinear_arith);
        assert(o == (o / a) * a + o % a) by (nonlinear_arith)
            requires
                a >= 1,
        ;
        assert(((o / a + 1) * a) % a == 0) by (nonlinear_arith)
            requires
                a >= 1,
        ;
    }
}

fn round_up_exec(o: u64, a: u64) -> (r: u64)
    requires
        a >= 1,
        round_up(o as int, a as int) <= u64::MAX,
    ensures
        r == round_up(o as int, a as int),
{
    if o % a == 0 {
        o
    } else {
        let q = o / a;
        assert(a >= 2) by (nonlinear_arith)
            requires
                a >= 1,
                o % a != 0,
        ;
        assert(q + 1 <= u64::MAX) by (nonlinear_arith)
            requires
                q == o / a,
                a >= 2,
                o <= u64::MAX,
        ;
        let q1 = q + 1;
        assert(q1 * a == round_up(o as int, a as int));
        q1 * a
    }
}

/// Size and alignment in bytes of a type.
pub fn llvm_size_align(t: &LlvmShape) -> (r: (u64, u32))
    requires
        layout_ok(*t),
    ensures
        r.0 == size_align(*t).0,
        r.1 == size_align(*t).1,
    decreases t,
{
    proof {
        lemma_size_align_pos(*t);
    }
    match t {
        LlvmShape::Int(bits) => {
            let size: u64 = ((*bits as u64) + 7) / 8;
            let align: u32 = if size < 8 {
                size as u32
            } else {
                8
            };
            (size, align)
        },
        LlvmShape::Float(s) => (*s, *s as u32),
        LlvmShape::Pointer => (8, 8),
        LlvmShape::Array(e, n) => {
            let (es, ea) = llvm_size_align(e);
            (es * *n, ea)
        },
        LlvmShape::Vector => (16, 16),
        LlvmShape::Struct(fs) => struct_size_align(fs),
    }
}

/// Size and alignment of a struct with the given field types.
fn struct_size_align(fs: &Vec<LlvmShape>) -> (r: (u64, u32))
    requires
        fields_ok(fs@),
    ensures
        r.0 == struct_layout(fs@).0,
        r.1 == struct_layout(fs@).1,
    decreases fs,
{
    let mut offset: u64 = 0;
    let mut align: u32 = 1;
    let mut i: usize = 0;
    assert(fs@.subrange(0, 0) =~= Seq::<LlvmShape>::empty());
    while i < fs.len()
        invariant
            0 <= i <= fs.len(),
            fields_ok(fs@),
            offset == struct_layout(fs@.subrange(0, i as int)).0,
            align == struct_layout(fs@.subrange(0, i as int)).1,
        decreases fs.len() - i,
    {
        let ghost pre = fs@.subrange(0, i + 1);
        assert(pre.subrange(0, pre.len() - 1) =~= fs@.subrange(0, i as int));
        assert(pre[pre.len() - 1] == fs@[i as int]);
        proof {
            lemma_fields_prefix(fs@, i + 1);
            lemma_fields_prefix(fs@, i as int);
            lemma_struct_layout_pos(fs@.subrange(0, i as int));
            assert(decreases_to!(fs => fs@[i as int]));
        }
        let (size, field_align) = llvm_size_align(&fs[i]);
        proof {
            lemma_size_align_pos(fs@[i as int]);
            lemma_round_up(offset as int, field_align as int);
        }
        if align < field_align {
            align = field_align;
        }
        let start = round_up_exec(offset, field_align as u64);
        offset = start + size;
        i += 1;
    }
    assert(fs@.subrange(0, fs.len() as int) =~= fs@);
    (offset, align)
}

/// A prefix of fields whose layout can be computed can be computed too.
proof fn lemma_fields_prefix(fs: Seq<LlvmShape>, k: int)
    requires
        fields_ok(fs),
        0 <= k <= fs.len(),
    ensures
        fields_ok(fs.subrange(0, k)),
    decreases fs.len() - k,
{
    if k < fs.len() {
        let init = fs.subrange(0, fs.len() - 1);
        lemma_fields_prefix(init, k);
        assert(init.subrange(0, k) =~= fs.subrange(0, k));
    } else {
        assert(fs.subrange(0, k) =~= fs);
    }
}

/// Where each field starts: the end of the fields before it, rounded up to
/// its alignment.
pub open spec fn member_offset(fs: Seq<LlvmShape>, i: int) -> int {
    round_up(struct_layout(fs.subrange(0, i)).0, size_align(fs[i]).1)
}

/// The offset of each member of a struct with the given field types.
pub fn struct_member_offsets(fields: &Vec<LlvmShape>) -> (r: Vec<u64>)
    requires
        fields_ok(fields@),
    ensures
        r.len() == fields.len(),
        forall|i: int| 0 <= i < r.len() ==> r@[i] == member_offset(fields@, i),
{
    let mut offsets: Vec<u64> = Vec::new();
    let mut offset: u64 = 0;
    let mut i: usize = 0;
    assert(fields@.subrange(0, 0) =~= Seq::<LlvmShape>::empty());
    while i < fields.len()
        invariant
            0 <= i <= fields.len(),
            fields_ok(fields@),
            offset == struct_layout(fields@.subrange(0, i as int)).0,
            offsets.len() == i,
            forall|k: int| 0 <= k < i ==> offsets@[k] == member_offset(fields@, k),
        decreases fields.len() - i,
    {
        let ghost pre = fields@.subrange(0, i + 1);
        assert(pre.subrange(0, pre.len() - 1) =~= fields@.subrange(0, i as int));
        assert(pre[pre.len() - 1] == fields@[i as int]);
        proof {
            lemma_fields_prefix(fields@, i + 1);
        }
        let (size, align) = llvm_size_align(&fields[i]);
        proof {
            lemma_size_align_pos(fields@[i as int]);
            lemma_struct_layout_pos(fields@.subrange(0, i as int));
            lemma_fields_prefix(fields@, i as int);
            lemma_round_up(offset as int, align as int);
        }
        let start = round_up_exec(offset, align as u64);
        offsets.push(start);
        offset = start + size;
        i += 1;
    }
    offsets
}

/// Members are laid out in order without overlapping: each starts at a
/// multiple of its alignment, at or after the end of the one before.
pub proof fn law_members_do_not_overlap(fs: Seq<LlvmShape>, i: int)
    requires
        fields_ok(fs),
        0 <= i < fs.len(),
    ensures
        member_offset(fs, i) % size_align(fs[i]).1 == 0,
        i > 0 ==> member_offset(fs, i - 1) + size_align(fs[i - 1]).0 <= member_offset(fs, i),
{
    lemma_fields_prefix(fs, i + 1);
    lemma_fields_prefix(fs, i);
    let pre = fs.subrange(0, i + 1);
    assert(pre.subrange(0, pre.len() - 1) =~= fs.subrange(0, i));
    assert(pre[pre.len() - 1] == fs[i]);
    lemma_size_align_pos(fs[i]);
    lemma_struct_layout_pos(fs.subrange(0, i));
    lemma_round_up(struct_layout(fs.subrange(0, i)).0, size_align(fs[i]).1);
    if i > 0 {
        let p = fs.subrange(0, i);
        assert(p.subrange(0, p.len() - 1) =~= fs.subrange(0, i - 1));
        assert(p[p.len() - 1] == fs[i - 1]);
    }
}

} // verus!
