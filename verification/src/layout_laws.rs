//! What holds of every buffer layout and of every numbering of a geometry.

use vstd::prelude::*;

use crate::abi;
use crate::resources;
use crate::resources::{BufferLayoutView, Entry, FieldLayoutView, GeometryInterfaceView};
use crate::sorting;
use crate::text;
use crate::value::ValueType;

verus! {

// ---------------------------------------------------------------------------
// Which fields, and in which order

/// Whether a field of this name and type is among these.
pub open spec fn holds_entry(fields: Seq<FieldLayoutView>, e: Entry) -> bool {
    exists|i: int| 0 <= i < fields.len() && (#[trigger] fields[i]).name == e.0 && fields[i].ty == e.1
}

/// Whether a declaration stands: it is there, and no later one has its name.
pub open spec fn stands(entries: Seq<Entry>, e: Entry) -> bool {
    exists|k: int|
        0 <= k < entries.len() && #[trigger] entries[k] == e && !resources::superseded(entries, k)
}

/// Whether a field comes before another: wider alignment first, then by name.
pub open spec fn comes_before(f: FieldLayoutView, g: FieldLayoutView) -> bool {
    ||| f.ty.buffer_align()->0 > g.ty.buffer_align()->0
    ||| f.ty.buffer_align() == g.ty.buffer_align() && text::text_less(f.name, g.name)
}

proof fn lemma_fields_held(entries: Seq<Entry>)
    ensures
        forall|e: Entry| #[trigger]
            holds_entry(resources::fields_of(entries), e) <==> entries.contains(e)
                && e.1.buffer_align() is Some,
    decreases entries.len(),
{
    let fs = resources::fields_of(entries);
    if entries.len() > 0 {
        let t = entries.drop_last();
        let x = entries.last();
        let before = resources::fields_of(t);
        lemma_fields_held(t);
        assert forall|e: Entry| #[trigger] holds_entry(fs, e) <==> entries.contains(e)
            && e.1.buffer_align() is Some by {
            assert(holds_entry(before, e) <==> t.contains(e) && e.1.buffer_align() is Some);
            assert(entries.contains(e) <==> t.contains(e) || e == x) by {
                if t.contains(e) {
                    let k = choose|k: int| 0 <= k < t.len() && t[k] == e;
                    assert(entries[k] == e);
                }
                if e == x {
                    assert(entries[entries.len() - 1] == e);
                }
                if entries.contains(e) && e != x {
                    let k = choose|k: int| 0 <= k < entries.len() && entries[k] == e;
                    assert(t[k] == e);
                }
            }
            if holds_entry(before, e) {
                let i = choose|i: int|
                    0 <= i < before.len() && (#[trigger] before[i]).name == e.0 && before[i].ty
                        == e.1;
                assert(fs[i] == before[i]);
            }
            if x.1.buffer_align() is Some {
                assert(fs.len() == before.len() + 1);
                if e == x {
                    assert(fs[before.len() as int].name == e.0);
                }
                if holds_entry(fs, e) {
                    let i = choose|i: int|
                        0 <= i < fs.len() && (#[trigger] fs[i]).name == e.0 && fs[i].ty == e.1;
                    if i < before.len() {
                        assert(before[i] == fs[i]);
                    }
                }
            }
        }
    }
}

proof fn lemma_fields_keep_order(entries: Seq<Entry>)
    requires
        forall|i: int, j: int|
            0 <= i < j < entries.len() ==> resources::by_alignment()(
                #[trigger] entries[i],
                #[trigger] entries[j],
            ),
    ensures
        forall|i: int, j: int|
            0 <= i < j < resources::fields_of(entries).len() ==> comes_before(
                #[trigger] resources::fields_of(entries)[i],
                #[trigger] resources::fields_of(entries)[j],
            ),
    decreases entries.len(),
{
    if entries.len() > 0 {
        let t = entries.drop_last();
        let x = entries.last();
        let fs = resources::fields_of(entries);
        let before = resources::fields_of(t);
        assert forall|i: int, j: int| 0 <= i < j < t.len() implies resources::by_alignment()(
            #[trigger] t[i],
            #[trigger] t[j],
        ) by {
            assert(t[i] == entries[i] && t[j] == entries[j]);
        }
        lemma_fields_keep_order(t);
        lemma_fields_held(t);
        assert forall|i: int, j: int| 0 <= i < j < fs.len() implies comes_before(
            #[trigger] fs[i],
            #[trigger] fs[j],
        ) by {
            assert(fs[i] == before[i]);
            if j < before.len() {
                assert(fs[j] == before[j]);
            } else {
                let e = (before[i].name, before[i].ty);
                assert(holds_entry(before, e));
                assert(t.contains(e));
                let k = choose|k: int| 0 <= k < t.len() && t[k] == e;
                assert(entries[k] == e);
                assert(resources::by_alignment()(entries[k], entries[entries.len() - 1]));
            }
        }
    }
}

proof fn lemma_last_of_each(entries: Seq<Entry>, n: int)
    requires
        0 <= n <= entries.len(),
    ensures
        resources::distinct_names(resources::last_of_each(entries, n)),
        forall|e: Entry| #[trigger]
            resources::last_of_each(entries, n).contains(e) <==> exists|k: int|
                0 <= k < n && #[trigger] entries[k] == e && !resources::superseded(entries, k),
    decreases n,
{
    if n > 0 {
        lemma_last_of_each(entries, n - 1);
        let before = resources::last_of_each(entries, n - 1);
        let all = resources::last_of_each(entries, n);
        let x = entries[n - 1];
        if !resources::superseded(entries, n - 1) {
            assert forall|i: int, j: int| 0 <= i < j < all.len() implies (#[trigger] all[i]).0 != (
            #[trigger] all[j]).0 by {
                assert(all[i] == before[i]);
                if j < before.len() {
                    assert(all[j] == before[j]);
                } else {
                    assert(before.contains(before[i]));
                    let k = choose|k: int|
                        0 <= k < n - 1 && #[trigger] entries[k] == before[i]
                            && !resources::superseded(entries, k);
                    if entries[k].0 == x.0 {
                        assert(entries[n - 1].0 == entries[k].0);
                        assert(resources::superseded(entries, k));
                    }
                }
            }
        }
        assert forall|e: Entry| #[trigger] all.contains(e) <==> exists|k: int|
            0 <= k < n && #[trigger] entries[k] == e && !resources::superseded(entries, k) by {
            assert(before.contains(e) <==> exists|k: int|
                0 <= k < n - 1 && #[trigger] entries[k] == e && !resources::superseded(entries, k));
            if all.contains(e) {
                let i = choose|i: int| 0 <= i < all.len() && all[i] == e;
                if i < before.len() {
                    assert(before[i] == e);
                    assert(before.contains(e));
                } else {
                    assert(entries[n - 1] == e);
                }
            }
            if exists|k: int|
                0 <= k < n && #[trigger] entries[k] == e && !resources::superseded(entries, k) {
                let k = choose|k: int|
                    0 <= k < n && #[trigger] entries[k] == e && !resources::superseded(entries, k);
                if k == n - 1 {
                    assert(all[all.len() - 1] == e);
                } else {
                    assert(entries[k] == e);
                    assert(before.contains(e));
                    let i = choose|i: int| 0 <= i < before.len() && before[i] == e;
                    assert(all[i] == e);
                }
            }
        }
    } else {
        assert(resources::last_of_each(entries, n) =~= Seq::<Entry>::empty());
    }
}

proof fn lemma_uniform_order(entries: Seq<Entry>)
    ensures
        forall|i: int, j: int|
            0 <= i < j < resources::uniform_order(entries).len() ==> resources::by_alignment()(
                #[trigger] resources::uniform_order(entries)[i],
                #[trigger] resources::uniform_order(entries)[j],
            ),
        resources::distinct_names(resources::uniform_order(entries)),
        forall|e: Entry| #[trigger]
            resources::uniform_order(entries).contains(e) <==> stands(entries, e),
{
    let kept = resources::last_of_each(entries, entries.len() as int);
    let s = resources::uniform_order(entries);
    let less = resources::by_alignment();
    lemma_last_of_each(entries, entries.len() as int);
    resources::lemma_by_alignment_is_strict();
    sorting::lemma_sorted(kept, less);
    resources::lemma_sorted_keeps_distinct(kept);
    assert forall|i: int, j: int| 0 <= i < j < s.len() implies less(
        #[trigger] s[i],
        #[trigger] s[j],
    ) by {
        assert(!less(s[j], s[i]));
        assert(s[i].0 != s[j].0);
        text::text_less_total(s[i].0, s[j].0);
    }
    assert forall|e: Entry| #[trigger] s.contains(e) <==> stands(entries, e) by {
        assert(s.contains(e) <==> kept.contains(e));
    }
}

/// A uniform buffer holds exactly the declared values that no later
/// declaration of their name replaces; a handle is none of its fields.
pub proof fn uniform_buffers_hold_what_is_declared(entries: Seq<Entry>, e: Entry)
    ensures
        holds_entry(
            resources::laid_out(resources::uniform_order(entries), 16).fields,
            e,
        ) <==> stands(entries, e) && !e.1.is_resource(),
{
    let s = resources::uniform_order(entries);
    lemma_uniform_order(entries);
    lemma_fields_held(s);
    assert(s.contains(e) <==> stands(entries, e));
    if resources::fields_of(s).len() == 0 {
        assert(resources::laid_out(s, 16).fields =~= resources::fields_of(s));
    }
    assert(holds_entry(resources::fields_of(s), e) <==> s.contains(e) && e.1.buffer_align() is Some);
}

/// The fields of a uniform buffer lie in falling alignment, and by name where
/// that is the same.
pub proof fn uniform_fields_lie_in_order(entries: Seq<Entry>, i: int, j: int)
    requires
        0 <= i < j < resources::laid_out(resources::uniform_order(entries), 16).fields.len(),
    ensures
        comes_before(
            resources::laid_out(resources::uniform_order(entries), 16).fields[i],
            resources::laid_out(resources::uniform_order(entries), 16).fields[j],
        ),
{
    lemma_uniform_order(entries);
    lemma_fields_keep_order(resources::uniform_order(entries));
}


// ---------------------------------------------------------------------------
// Where the fields lie, and how large the buffer is

/// Whether a field lies at the first place behind the one before it that its
/// alignment allows.
pub open spec fn lies_close(fields: Seq<FieldLayoutView>, i: int) -> bool {
    fields[i].offset == resources::rounded_up(
        fields[i].ty.buffer_align()->0 as int,
        fields[i - 1].offset + fields[i - 1].size,
    )
}

proof fn lemma_fields_lie_close(entries: Seq<Entry>)
    requires
        resources::end_of(entries) <= u32::MAX,
    ensures
        ({
            let fs = resources::fields_of(entries);
            &&& fs.len() > 0 ==> fs[0].offset == 0 && fs.last().offset + fs.last().size
                == resources::end_of(entries)
            &&& forall|i: int| 0 < i < fs.len() ==> #[trigger] lies_close(fs, i)
        }),
    decreases entries.len(),
{
    if entries.len() > 0 {
        let t = entries.drop_last();
        let ty = entries.last().1;
        let fs = resources::fields_of(entries);
        let before = resources::fields_of(t);
        resources::lemma_end_bound(t);
        resources::lemma_end_bound(entries);
        if ty.buffer_align() is Some {
            resources::lemma_rounded_up(ty.buffer_align()->0 as int, resources::end_of(t));
        }
        lemma_fields_lie_close(t);
        if ty.buffer_align() is Some {
            assert forall|i: int| 0 < i < fs.len() implies #[trigger] lies_close(fs, i) by {
                if i < before.len() {
                    assert(lies_close(before, i));
                    assert(fs[i] == before[i] && fs[i - 1] == before[i - 1]);
                } else {
                    assert(fs[i - 1] == before.last());
                }
            }
            if before.len() == 0 {
                assert(resources::end_of(t) == 0);
                let align = ty.buffer_align()->0 as int;
                assert(resources::rounded_up(align, 0) == 0) by {
                    resources::lemma_rounded_up(align, 0);
                    if align == 4 {
                    } else if align == 8 {
                    } else {
                        assert(align == 16);
                    }
                }
            } else {
                assert(fs[0] == before[0]);
            }
        }
    }
}

/// A layout starts with its first field, and between two fields there is never
/// room for the alignment of the second.
pub proof fn fields_lie_close(entries: Seq<Entry>, min_align: u32, i: int)
    requires
        resources::layout_fits(entries, min_align),
        0 <= i < resources::laid_out(entries, min_align).fields.len(),
    ensures
        ({
            let fs = resources::laid_out(entries, min_align).fields;
            &&& i == 0 ==> fs[i].offset == 0
            &&& i > 0 ==> 0 <= fs[i].offset - (fs[i - 1].offset + fs[i - 1].size)
                < fs[i].ty.buffer_align()->0
        }),
{
    let fs = resources::laid_out(entries, min_align).fields;
    resources::lemma_layout_ends(entries, min_align);
    resources::lemma_fields_in_place(entries);
    lemma_fields_lie_close(entries);
    if i > 0 {
        assert(lies_close(fs, i));
        resources::lemma_rounded_up(
            fs[i].ty.buffer_align()->0 as int,
            fs[i - 1].offset + fs[i - 1].size,
        );
    }
}

proof fn lemma_largest_align(entries: Seq<Entry>)
    ensures
        ({
            let fs = resources::fields_of(entries);
            &&& forall|i: int|
                0 <= i < fs.len() ==> (#[trigger] fs[i]).ty.buffer_align()->0
                    <= resources::largest_align(entries)
            &&& fs.len() > 0 ==> exists|i: int|
                0 <= i < fs.len() && (#[trigger] fs[i]).ty.buffer_align() == Some(
                    resources::largest_align(entries),
                )
        }),
    decreases entries.len(),
{
    if entries.len() > 0 {
        let t = entries.drop_last();
        let ty = entries.last().1;
        let fs = resources::fields_of(entries);
        let before = resources::fields_of(t);
        lemma_largest_align(t);
        resources::lemma_no_align(t);
        if ty.buffer_align() is Some {
            assert forall|i: int| 0 <= i < fs.len() implies (#[trigger] fs[i]).ty.buffer_align()->0
                <= resources::largest_align(entries) by {
                if i < before.len() {
                    assert(fs[i] == before[i]);
                }
            }
            if ty.buffer_align()->0 > resources::largest_align(t) {
                assert(fs[before.len() as int].ty == ty);
            } else {
                let i = choose|i: int|
                    0 <= i < before.len() && (#[trigger] before[i]).ty.buffer_align() == Some(
                        resources::largest_align(t),
                    );
                assert(fs[i] == before[i]);
            }
        }
    }
}

/// The size of a layout is the least multiple of its alignment that holds its
/// last field. A uniform buffer is aligned to 16 bytes, a storage row as its
/// most aligned field is.
pub proof fn layouts_are_no_larger_than_needed(entries: Seq<Entry>, min_align: u32, size: int)
    requires
        resources::layout_fits(entries, min_align),
        min_align <= 16,
    ensures
        ({
            let l = resources::laid_out(entries, min_align);
            &&& l.fields.len() == 0 ==> l.size == 0
            &&& l.fields.len() > 0 ==> {
                &&& l.size % l.align == 0
                &&& l.fields.last().offset + l.fields.last().size <= l.size
                &&& size % (l.align as int) == 0 && l.fields.last().offset + l.fields.last().size
                    <= size ==> l.size <= size
                &&& min_align == 16 ==> l.align == 16
                &&& min_align == 0 ==> exists|i: int|
                    0 <= i < l.fields.len() && (#[trigger] l.fields[i]).ty.buffer_align() == Some(
                        l.align,
                    )
                &&& forall|i: int|
                    0 <= i < l.fields.len() ==> (#[trigger] l.fields[i]).ty.buffer_align()->0
                        <= l.align
            }
        }),
{
    let l = resources::laid_out(entries, min_align);
    if l.fields.len() > 0 {
        resources::lemma_end_bound(entries);
        resources::lemma_layout_ends(entries, min_align);
        resources::lemma_rounded_up(l.align as int, resources::end_of(entries));
        lemma_fields_lie_close(entries);
        lemma_largest_align(entries);
        let end = resources::end_of(entries);
        let align = l.align as int;
        let up = resources::rounded_up(align, end);
        if size % align == 0 && end <= size {
            lemma_least_multiple(align, end, up, size);
        }
    }
}

proof fn lemma_least_multiple(align: int, end: int, up: int, size: int)
    requires
        align > 0,
        up % align == 0,
        size % align == 0,
        end <= size,
        up < end + align,
    ensures
        up <= size,
{
    vstd::arithmetic::div_mod::lemma_fundamental_div_mod(up, align);
    vstd::arithmetic::div_mod::lemma_fundamental_div_mod(size, align);
    let p = up / align;
    let q = size / align;
    assert(up <= size) by (nonlinear_arith)
        requires
            align > 0,
            up == align * p,
            size == align * q,
            up < size + align,
    ;
}

// ---------------------------------------------------------------------------
// What a signature tells

proof fn lemma_type_text(ty: ValueType)
    requires
        ty.buffer_align() is Some,
    ensures
        !ty.wxsl_type()@.contains(':'),
        !ty.wxsl_type()@.contains('@'),
{
    reveal_strlit("bool");
    reveal_strlit("i32");
    reveal_strlit("u32");
    reveal_strlit("f32");
    reveal_strlit("vec2f");
    reveal_strlit("vec3f");
    reveal_strlit("vec4f");
    reveal_strlit("mat3x3f");
    reveal_strlit("mat4x4f");
}

proof fn lemma_types_told_apart(a: ValueType, b: ValueType)
    requires
        a.buffer_align() is Some,
        b.buffer_align() is Some,
        a.wxsl_type()@ == b.wxsl_type()@,
    ensures
        a == b,
{
    reveal_strlit("bool");
    reveal_strlit("i32");
    reveal_strlit("u32");
    reveal_strlit("f32");
    reveal_strlit("vec2f");
    reveal_strlit("vec3f");
    reveal_strlit("vec4f");
    reveal_strlit("mat3x3f");
    reveal_strlit("mat4x4f");
    let s = a.wxsl_type()@;
    let t = b.wxsl_type()@;
    assert(s.len() == t.len());
    assert(s[0] == t[0] && (s.len() > 3 ==> s[3] == t[3]));
}

/// The fields are those of a layout, and no name holds what parts them in a
/// signature. An identifier never does.
pub open spec fn plainly_named(l: BufferLayoutView) -> bool {
    &&& resources::well_laid(l)
    &&& forall|i: int| 0 <= i < l.fields.len() ==> !(#[trigger] l.fields[i]).name.contains(';')
}

proof fn lemma_signature_read(a: BufferLayoutView, b: BufferLayoutView, n: int, m: int)
    requires
        plainly_named(a),
        plainly_named(b),
        0 <= n <= a.fields.len(),
        0 <= m <= b.fields.len(),
        resources::layout_signature_upto(Seq::empty(), a.fields, n)
            == resources::layout_signature_upto(Seq::empty(), b.fields, m),
    ensures
        n == m,
        a.fields.take(n) == b.fields.take(m),
    decreases n,
{
    let none = Seq::<char>::empty();
    let s = resources::layout_signature_upto(none, a.fields, n);
    let t = resources::layout_signature_upto(none, b.fields, m);
    reveal_strlit(":");
    reveal_strlit("@");
    reveal_strlit(";");
    if n > 0 && m > 0 {
        let f = a.fields[n - 1];
        let g = b.fields[m - 1];
        let p = resources::layout_signature_upto(none, a.fields, n - 1);
        let q = resources::layout_signature_upto(none, b.fields, m - 1);
        let df = text::decimal(f.offset as nat);
        let dg = text::decimal(g.offset as nat);
        let tf = f.ty.wxsl_type()@;
        let tg = g.ty.wxsl_type()@;
        lemma_type_text(f.ty);
        lemma_type_text(g.ty);
        text::lemma_decimal_digits(f.offset as nat);
        text::lemma_decimal_digits(g.offset as nat);
        let fa = p + f.name + ":"@ + tf;
        let ga = q + g.name + ":"@ + tg;
        assert(s.drop_last() =~= fa.push('@') + df);
        assert(t.drop_last() =~= ga.push('@') + dg);
        text::lemma_last_part('@', fa, df, ga, dg);
        text::lemma_decimal_tells_apart(f.offset as nat, g.offset as nat);
        assert(fa =~= (p + f.name).push(':') + tf);
        assert(ga =~= (q + g.name).push(':') + tg);
        text::lemma_last_part(':', p + f.name, tf, q + g.name, tg);
        lemma_types_told_apart(f.ty, g.ty);
        lemma_ends_with_mark(a.fields, n - 1);
        lemma_ends_with_mark(b.fields, m - 1);
        if n > 1 && m > 1 {
            assert(p + f.name =~= p.drop_last().push(';') + f.name);
            assert(q + g.name =~= q.drop_last().push(';') + g.name);
            text::lemma_last_part(';', p.drop_last(), f.name, q.drop_last(), g.name);
            assert(p =~= p.drop_last().push(';'));
            assert(q =~= q.drop_last().push(';'));
        } else if n > 1 {
            assert((p + f.name)[p.len() - 1] == ';');
            assert(q + g.name =~= g.name);
            assert(g.name.contains(';'));
        } else if m > 1 {
            assert((q + g.name)[q.len() - 1] == ';');
            assert(p + f.name =~= f.name);
            assert(f.name.contains(';'));
        } else {
            assert(p + f.name =~= f.name);
            assert(q + g.name =~= g.name);
        }
        lemma_signature_read(a, b, n - 1, m - 1);
        assert(f =~= g);
        assert(a.fields.take(n) =~= a.fields.take(n - 1).push(f));
        assert(b.fields.take(m) =~= b.fields.take(m - 1).push(g));
    } else {
        lemma_ends_with_mark(a.fields, n);
        lemma_ends_with_mark(b.fields, m);
        assert(a.fields.take(n) =~= b.fields.take(m));
    }
}

proof fn lemma_ends_with_mark(fields: Seq<FieldLayoutView>, n: int)
    requires
        0 <= n <= fields.len(),
    ensures
        n > 0 ==> resources::layout_signature_upto(Seq::empty(), fields, n).len() > 0
            && resources::layout_signature_upto(Seq::empty(), fields, n).last() == ';',
        n == 0 ==> resources::layout_signature_upto(Seq::empty(), fields, n).len() == 0,
{
    reveal_strlit(";");
}

/// Layouts with one signature have the same fields, at the same places.
pub proof fn signatures_tell_layouts_apart(a: BufferLayoutView, b: BufferLayoutView)
    requires
        plainly_named(a),
        plainly_named(b),
        resources::layout_signature(Seq::empty(), a) == resources::layout_signature(
            Seq::empty(),
            b,
        ),
    ensures
        a.fields == b.fields,
{
    lemma_signature_read(a, b, a.fields.len() as int, b.fields.len() as int);
    assert(a.fields.take(a.fields.len() as int) =~= a.fields);
    assert(b.fields.take(b.fields.len() as int) =~= b.fields);
}


// ---------------------------------------------------------------------------
// The numbers of a geometry

proof fn lemma_no_repeats(s: Seq<Entry>)
    requires
        resources::distinct_names(s),
    ensures
        resources::dedup_names(s) == s,
    decreases s.len(),
{
    if s.len() > 1 {
        let t = s.drop_last();
        assert forall|i: int, j: int| 0 <= i < j < t.len() implies (#[trigger] t[i]).0 != (
        #[trigger] t[j]).0 by {
            assert(t[i] == s[i] && t[j] == s[j]);
        }
        lemma_no_repeats(t);
        assert(t.last() == s[s.len() - 2]);
        assert(s[s.len() - 2].0 != s[s.len() - 1].0);
        assert(t.push(s.last()) =~= s);
    }
}

proof fn lemma_nothing_in_prefix(entries: Seq<Entry>, n: int)
    requires
        0 <= n <= entries.len(),
    ensures
        resources::not_in_prefix(Seq::empty(), entries, n) == entries.take(n),
    decreases n,
{
    if n > 0 {
        lemma_nothing_in_prefix(entries, n - 1);
        assert(entries.take(n) =~= entries.take(n - 1).push(entries[n - 1]));
    } else {
        assert(entries.take(0) =~= Seq::<Entry>::empty());
    }
}

proof fn lemma_row_order(entries: Seq<Entry>)
    ensures
        resources::storage_order(Seq::empty(), entries) == resources::uniform_order(entries),
{
    lemma_nothing_in_prefix(entries, entries.len() as int);
    assert(entries.take(entries.len() as int) =~= entries);
    let s = resources::uniform_order(entries);
    assert(Seq::<Entry>::empty() + s =~= s);
    lemma_uniform_order(entries);
    lemma_no_repeats(s);
}

proof fn lemma_named_order_ignores_order(a: Seq<Entry>, b: Seq<Entry>)
    requires
        resources::distinct_names(a),
        resources::distinct_names(b),
        forall|e: Entry| a.contains(e) <==> b.contains(e),
    ensures
        resources::named_order(a) == resources::named_order(b),
{
    let less = resources::by_name();
    resources::lemma_by_name_is_strict();
    sorting::lemma_sorted(a, less);
    sorting::lemma_sorted(b, less);
    let s = sorting::sorted(a, less);
    let t = sorting::sorted(b, less);
    lemma_sorting_keeps_names_apart(a, s);
    lemma_sorting_keeps_names_apart(b, t);
    assert forall|i: int, j: int| 0 <= i < s.len() && 0 <= j < s.len() && i != j implies less(
        #[trigger] s[i],
        #[trigger] s[j],
    ) || less(s[j], s[i]) by {
        text::text_less_total(s[i].0, s[j].0);
        if i < j {
            assert(s[i].0 != s[j].0);
        } else {
            assert(s[j].0 != s[i].0);
        }
    }
    assert forall|e: Entry| s.contains(e) <==> t.contains(e) by {
        assert(s.contains(e) <==> a.contains(e));
        assert(t.contains(e) <==> b.contains(e));
    }
    sorting::lemma_order_is_unique(s, t, less);
}

pub(crate) proof fn lemma_sorting_keeps_names_apart(a: Seq<Entry>, s: Seq<Entry>)
    requires
        resources::distinct_names(a),
        s.to_multiset() == a.to_multiset(),
        forall|e: Entry| #[trigger] s.contains(e) <==> a.contains(e),
    ensures
        s.no_duplicates(),
        resources::distinct_names(s),
{
    assert(a.no_duplicates()) by {
        assert forall|i: int, j: int|
            0 <= i < a.len() && 0 <= j < a.len() && i != j implies a[i] != a[j] by {
            if i < j {
                assert(a[i].0 != a[j].0);
            } else {
                assert(a[j].0 != a[i].0);
            }
        }
    }
    a.lemma_multiset_has_no_duplicates();
    s.lemma_multiset_has_no_duplicates_conv();
    assert forall|i: int, j: int| 0 <= i < j < s.len() implies (#[trigger] s[i]).0 != (
    #[trigger] s[j]).0 by {
        assert(s.contains(s[i]) && s.contains(s[j]));
        let m = choose|m: int| 0 <= m < a.len() && a[m] == s[i];
        let n = choose|n: int| 0 <= n < a.len() && a[n] == s[j];
        assert(s[i] != s[j]);
        if m < n {
            assert(a[m].0 != a[n].0);
        } else if n < m {
            assert(a[n].0 != a[m].0);
        }
    }
}

/// The numbers of a geometry are a property of what is declared, not of the
/// order in which it is.
pub proof fn geometry_ignores_declaration_order(
    vertex: Seq<Entry>,
    instance: Seq<Entry>,
    computed: Seq<Entry>,
    vertex2: Seq<Entry>,
    instance2: Seq<Entry>,
    computed2: Seq<Entry>,
)
    requires
        resources::distinct_names(vertex),
        resources::distinct_names(instance),
        resources::distinct_names(computed),
        vertex.to_multiset() == vertex2.to_multiset(),
        instance.to_multiset() == instance2.to_multiset(),
        computed.to_multiset() == computed2.to_multiset(),
    ensures
        resources::geometry_of(vertex, instance, computed) == resources::geometry_of(
            vertex2,
            instance2,
            computed2,
        ),
{
    lemma_reordered(vertex, vertex2);
    lemma_reordered(instance, instance2);
    lemma_reordered(computed, computed2);
    lemma_named_order_ignores_order(vertex, vertex2);
    lemma_named_order_ignores_order(computed, computed2);
    resources::order_ignores_declaration_order(instance, instance2);
    lemma_row_order(instance);
    lemma_row_order(instance2);
    assert(resources::geometry_of(vertex, instance, computed) =~= resources::geometry_of(
        vertex2,
        instance2,
        computed2,
    ));
}

proof fn lemma_reordered(a: Seq<Entry>, b: Seq<Entry>)
    requires
        resources::distinct_names(a),
        a.to_multiset() == b.to_multiset(),
    ensures
        resources::distinct_names(b),
        forall|e: Entry| a.contains(e) <==> b.contains(e),
{
    broadcast use vstd::seq_lib::group_to_multiset_ensures;

    assert forall|e: Entry| #[trigger] b.contains(e) <==> a.contains(e) by {
        assert(a.contains(e) <==> a.to_multiset().contains(e));
        assert(b.contains(e) <==> b.to_multiset().contains(e));
    }
    lemma_sorting_keeps_names_apart(a, b);
}

/// The instance index travels exactly where the instances have a value, at one
/// location, however many values they have and whatever else is declared.
pub proof fn instance_index_travels_with_values(
    vertex: Seq<Entry>,
    instance: Seq<Entry>,
    computed: Seq<Entry>,
)
    ensures
        resources::geometry_of(vertex, instance, computed).instance_index_location == (if exists|
            e: Entry,
        | #[trigger] stands(instance, e) && !e.1.is_resource() {
            Some(abi::VERTEX_OUT_COUNT as u32)
        } else {
            None
        }),
{
    lemma_row_order(instance);
    let s = resources::uniform_order(instance);
    let fs = resources::fields_of(s);
    lemma_uniform_order(instance);
    lemma_fields_held(s);
    if fs.len() > 0 {
        let e = (fs[0].name, fs[0].ty);
        assert(holds_entry(fs, e));
        assert(s.contains(e));
        assert(stands(instance, e));
    }
    if exists|e: Entry| #[trigger] stands(instance, e) && !e.1.is_resource() {
        let e = choose|e: Entry| #[trigger] stands(instance, e) && !e.1.is_resource();
        assert(s.contains(e));
        assert(holds_entry(fs, e));
    }
}

/// Whether something travels at an inter-stage location.
pub open spec fn in_use(g: GeometryInterfaceView, location: int) -> bool {
    ||| 0 <= location < abi::VERTEX_OUT_COUNT
    ||| g.instance_index_location is Some && g.instance_index_location->0 == location
    ||| exists|i: int| 0 <= i < g.vertex.len() && (#[trigger] g.vertex[i]).varying == location
    ||| exists|i: int| 0 <= i < g.computed.len() && (#[trigger] g.computed[i]).varying == location
}

/// The locations in use are those from 0 up to what is spent, and no two
/// things travel at one.
pub proof fn locations_fill_up(vertex: Seq<Entry>, instance: Seq<Entry>, computed: Seq<Entry>)
    requires
        resources::geometry_fits(vertex, instance, computed),
    ensures
        ({
            let g = resources::geometry_of(vertex, instance, computed);
            &&& forall|n: int| #[trigger]
                in_use(g, n) <==> 0 <= n < resources::varyings_spent(g)
            &&& g.instance_index_location is Some ==> g.instance_index_location->0
                >= abi::VERTEX_OUT_COUNT
            &&& forall|i: int|
                0 <= i < g.vertex.len() ==> (#[trigger] g.vertex[i]).varying
                    >= abi::VERTEX_OUT_COUNT && g.instance_index_location != Some(
                    g.vertex[i].varying,
                )
            &&& forall|i: int|
                0 <= i < g.computed.len() ==> (#[trigger] g.computed[i]).varying
                    >= abi::VERTEX_OUT_COUNT && g.instance_index_location != Some(
                    g.computed[i].varying,
                )
            &&& forall|i: int, j: int|
                0 <= i < j < g.vertex.len() ==> (#[trigger] g.vertex[i]).varying != (
                #[trigger] g.vertex[j]).varying
            &&& forall|i: int, j: int|
                0 <= i < j < g.computed.len() ==> (#[trigger] g.computed[i]).varying != (
                #[trigger] g.computed[j]).varying
            &&& forall|i: int, j: int|
                0 <= i < g.vertex.len() && 0 <= j < g.computed.len() ==> (
                #[trigger] g.vertex[i]).varying != (#[trigger] g.computed[j]).varying
        }),
{
    let g = resources::geometry_of(vertex, instance, computed);
    let spent = resources::varyings_spent(g);
    let extra = resources::first_extra(g.instance_index_location is Some);
    let v = g.vertex.len() as int;
    assert forall|i: int| 0 <= i < v implies (#[trigger] g.vertex[i]).varying == extra + i by {}
    assert forall|i: int| 0 <= i < g.computed.len() implies (#[trigger] g.computed[i]).varying
        == extra + v + i by {}
    assert forall|n: int| #[trigger] in_use(g, n) <==> 0 <= n < spent by {
        if extra <= n < extra + v {
            assert(g.vertex[n - extra].varying == n);
        } else if extra + v <= n < spent {
            assert(g.computed[n - extra - v].varying == n);
        }
    }
}

} // verus!
