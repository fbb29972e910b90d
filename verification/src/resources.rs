//! What a material needs from outside itself: uniform parameters, textures and
//! samplers, the block the application supplies, and what it asks of the
//! geometry it is drawn on.
//!
//! The layout of a buffer is computed here and nowhere else: the shader's
//! struct is generated from it and the host writes through it.

use vstd::prelude::*;

use crate::abi;
use crate::copies::{clone_vec, copy_opt};
use crate::float::Float;
use crate::lists;
use crate::node::{Value, ValueType};
use crate::sorting;
use crate::sorting::sort_stable;
use crate::text;
use crate::text::{is_text_less, push_number, same_text};
use crate::textmap::TextMap;
use crate::wxsl::WxslIdent;

verus! {

impl ValueType {
    /// The alignment in a host-shared buffer, in bytes; a handle has none.
    #[verifier::allow_in_spec]
    pub fn buffer_align(&self) -> Option<u32>
        returns
            (match *self {
                ValueType::Bool | ValueType::I32 | ValueType::U32 | ValueType::F32 => Some(4u32),
                ValueType::Vec2 => Some(8u32),
                ValueType::Vec3 | ValueType::Vec4 | ValueType::Mat3 | ValueType::Mat4 => Some(
                    16u32,
                ),
                _ => None,
            }),
    {
        match self {
            ValueType::Bool | ValueType::I32 | ValueType::U32 | ValueType::F32 => Some(4),
            ValueType::Vec2 => Some(8),
            ValueType::Vec3 | ValueType::Vec4 | ValueType::Mat3 | ValueType::Mat4 => Some(16),
            _ => None,
        }
    }

    /// The size in a host-shared buffer, in bytes; a handle has none.
    #[verifier::allow_in_spec]
    pub fn buffer_size(&self) -> Option<u32>
        returns
            (match *self {
                ValueType::Bool | ValueType::I32 | ValueType::U32 | ValueType::F32 => Some(4u32),
                ValueType::Vec2 => Some(8u32),
                ValueType::Vec3 => Some(12u32),
                ValueType::Vec4 => Some(16u32),
                ValueType::Mat3 => Some(48u32),
                ValueType::Mat4 => Some(64u32),
                _ => None,
            }),
    {
        match self {
            ValueType::Bool | ValueType::I32 | ValueType::U32 | ValueType::F32 => Some(4),
            ValueType::Vec2 => Some(8),
            ValueType::Vec3 => Some(12),
            ValueType::Vec4 => Some(16),
            ValueType::Mat3 => Some(48),
            ValueType::Mat4 => Some(64),
            _ => None,
        }
    }

    /// How the type is spelled in a host-shared struct: a flag is a `u32`.
    #[verifier::allow_in_spec]
    pub fn buffer_type(&self) -> Option<&'static str>
        returns
            (if *self == ValueType::Bool {
                Some("u32")
            } else if self.is_resource() {
                None
            } else {
                Some(self.wxsl_type())
            }),
    {
        if *self == ValueType::Bool {
            Some("u32")
        } else if self.is_resource() {
            None
        } else {
            Some(self.wxsl_type())
        }
    }
}

/// One field of a buffer, and where it lies.
#[derive(Debug, PartialEq)]
pub struct FieldLayout {
    /// The field's name in the struct and to the host.
    pub name: WxslIdent,
    /// The type of the value it carries.
    pub ty: ValueType,
    /// Its first byte.
    pub offset: u32,
    /// The bytes it occupies, without padding.
    pub size: u32,
}

/// What a [`FieldLayout`] stands for.
#[verifier::ext_equal]
pub struct FieldLayoutView {
    /// The field's name in the struct and to the host.
    pub name: Seq<char>,
    /// The type of the value it carries.
    pub ty: ValueType,
    /// Its first byte.
    pub offset: u32,
    /// The bytes it occupies, without padding.
    pub size: u32,
}

impl View for FieldLayout {
    type V = FieldLayoutView;

    open spec fn view(&self) -> FieldLayoutView {
        FieldLayoutView {
            name: self.name@,
            ty: self.ty,
            offset: self.offset,
            size: self.size,
        }
    }
}

impl Clone for FieldLayout {
    fn clone(&self) -> (r: Self)
        ensures
            r@ == self@,
    {
        FieldLayout {
            name: self.name.clone(),
            ty: self.ty,
            offset: self.offset,
            size: self.size,
        }
    }
}

/// A declaration: a name and a type.
pub type Entry = (Seq<char>, ValueType);

/// A host-shared buffer whose fields a graph decided.
#[derive(Debug, PartialEq)]
pub struct BufferLayout {
    fields: Vec<FieldLayout>,
    size: u32,
    align: u32,
}

/// What a [`BufferLayout`] stands for.
#[verifier::ext_equal]
pub struct BufferLayoutView {
    /// The fields, in layout order.
    pub fields: Seq<FieldLayoutView>,
    /// The size in bytes.
    pub size: u32,
    /// The alignment in bytes.
    pub align: u32,
}

impl View for BufferLayout {
    type V = BufferLayoutView;

    closed spec fn view(&self) -> BufferLayoutView {
        BufferLayoutView { fields: text::seq_of(self.fields@), size: self.size, align: self.align }
    }
}

/// A buffer without fields.
pub open spec fn empty_layout() -> BufferLayoutView {
    BufferLayoutView { fields: Seq::empty(), size: 0, align: 0 }
}

/// Every field lies at a multiple of its alignment, no two overlap, all of
/// them lie inside the buffer, and its size is a multiple of its alignment.
pub open spec fn well_laid(l: BufferLayoutView) -> bool {
    &&& forall|i: int|
        #![trigger l.fields[i]]
        0 <= i < l.fields.len() ==> {
            &&& l.fields[i].ty.buffer_align() is Some
            &&& l.fields[i].ty.buffer_size() == Some(l.fields[i].size)
            &&& l.fields[i].offset % l.fields[i].ty.buffer_align()->0 == 0
            &&& l.fields[i].offset + l.fields[i].size <= l.size
        }
    &&& forall|i: int, j: int|
        #![trigger l.fields[i], l.fields[j]]
        0 <= i < j < l.fields.len() ==> l.fields[i].offset + l.fields[i].size
            <= l.fields[j].offset
    &&& l.fields.len() == 0 ==> l == empty_layout()
    &&& l.fields.len() > 0 ==> l.align > 0 && l.size % l.align == 0
}

impl Clone for BufferLayout {
    fn clone(&self) -> (r: Self)
        ensures
            r@ == self@,
    {
        proof {
            use_type_invariant(self);
        }
        let fields = clone_vec(&self.fields);
        BufferLayout { fields, size: self.size, align: self.align }
    }
}

impl Default for BufferLayout {
    fn default() -> (r: Self)
        ensures
            r@ == empty_layout(),
    {
        let fields: Vec<FieldLayout> = Vec::new();
        assert(text::seq_of(fields@) =~= Seq::<FieldLayoutView>::empty());
        let r = BufferLayout { fields, size: 0, align: 0 };
        assert(r@ =~= empty_layout());
        r
    }
}

/// `value` rounded up to the next multiple of `align`.
pub open spec fn rounded_up(align: int, value: int) -> int {
    ((value + align - 1) / align) * align
}

/// The end of the last field of `entries` laid out in order.
pub open spec fn end_of(entries: Seq<Entry>) -> int
    decreases entries.len(),
{
    if entries.len() == 0 {
        0
    } else {
        let ty = entries.last().1;
        let before = end_of(entries.drop_last());
        match (ty.buffer_align(), ty.buffer_size()) {
            (Some(align), Some(size)) => rounded_up(align as int, before) + size,
            _ => before,
        }
    }
}

/// The fields of `entries` laid out in order; a handle is no field.
pub open spec fn fields_of(entries: Seq<Entry>) -> Seq<FieldLayoutView>
    decreases entries.len(),
{
    if entries.len() == 0 {
        Seq::empty()
    } else {
        let (name, ty) = entries.last();
        let before = fields_of(entries.drop_last());
        match (ty.buffer_align(), ty.buffer_size()) {
            (Some(align), Some(size)) => before.push(
                FieldLayoutView {
                    name,
                    ty,
                    offset: rounded_up(align as int, end_of(entries.drop_last())) as u32,
                    size,
                },
            ),
            _ => before,
        }
    }
}

/// The largest alignment among `entries`.
pub open spec fn largest_align(entries: Seq<Entry>) -> u32
    decreases entries.len(),
{
    if entries.len() == 0 {
        0
    } else {
        let before = largest_align(entries.drop_last());
        match entries.last().1.buffer_align() {
            Some(align) => if align > before {
                align
            } else {
                before
            },
            None => before,
        }
    }
}

/// The alignment of `entries` laid out in order, at least `min_align`.
pub open spec fn layout_align(entries: Seq<Entry>, min_align: u32) -> u32 {
    if largest_align(entries) > min_align {
        largest_align(entries)
    } else {
        min_align
    }
}

/// Whether `entries` can be laid out: the end of the buffer fits 32 bits.
pub open spec fn layout_fits(entries: Seq<Entry>, min_align: u32) -> bool {
    fields_of(entries).len() > 0 ==> rounded_up(
        layout_align(entries, min_align) as int,
        end_of(entries),
    ) <= u32::MAX
}

/// `entries` laid out in order, the whole aligned to at least `min_align`.
pub open spec fn laid_out(entries: Seq<Entry>, min_align: u32) -> BufferLayoutView {
    let align = layout_align(entries, min_align);
    if fields_of(entries).len() == 0 {
        empty_layout()
    } else {
        BufferLayoutView {
            fields: fields_of(entries),
            size: rounded_up(align as int, end_of(entries)) as u32,
            align,
        }
    }
}

/// The place of a type in a layout: the widest alignment first, handles last.
pub open spec fn align_rank(ty: ValueType) -> u32 {
    match ty.buffer_align() {
        Some(align) => align,
        None => 0,
    }
}

/// The order of fields in a layout: widest alignment first, then by name.
pub open spec fn by_alignment() -> spec_fn(Entry, Entry) -> bool {
    |a: Entry, b: Entry|
        align_rank(a.1) > align_rank(b.1) || (align_rank(a.1) == align_rank(b.1) && text::text_less(
            a.0,
            b.0,
        ))
}

/// The order by name alone.
pub open spec fn by_name() -> spec_fn(Entry, Entry) -> bool {
    |a: Entry, b: Entry| text::text_less(a.0, b.0)
}

/// Whether a later declaration has the name of the one at `i`.
pub open spec fn superseded(entries: Seq<Entry>, i: int) -> bool {
    exists|j: int| i < j < entries.len() && (#[trigger] entries[j]).0 == entries[i].0
}

/// The first `n` declarations without those that a later one supersedes.
pub open spec fn last_of_each(entries: Seq<Entry>, n: int) -> Seq<Entry>
    decreases n,
{
    if n <= 0 {
        Seq::empty()
    } else {
        let before = last_of_each(entries, n - 1);
        if superseded(entries, n - 1) {
            before
        } else {
            before.push(entries[n - 1])
        }
    }
}

/// The fields of a uniform buffer in layout order: of two declarations with
/// one name the later, widest alignment first, then by name.
pub open spec fn uniform_order(entries: Seq<Entry>) -> Seq<Entry> {
    sorting::sorted(last_of_each(entries, entries.len() as int), by_alignment())
}

/// Whether `entries` declares a name.
pub open spec fn declares(entries: Seq<Entry>, name: Seq<char>) -> bool {
    exists|j: int| 0 <= j < entries.len() && (#[trigger] entries[j]).0 == name
}

/// The first `n` declarations of `entries` without those that `prefix` declares.
pub open spec fn not_in_prefix(prefix: Seq<Entry>, entries: Seq<Entry>, n: int) -> Seq<Entry>
    decreases n,
{
    if n <= 0 {
        Seq::empty()
    } else {
        let before = not_in_prefix(prefix, entries, n - 1);
        if declares(prefix, entries[n - 1].0) {
            before
        } else {
            before.push(entries[n - 1])
        }
    }
}

/// `entries` without those that have the name of the one before them.
pub open spec fn dedup_names(entries: Seq<Entry>) -> Seq<Entry>
    decreases entries.len(),
{
    if entries.len() <= 1 {
        entries
    } else {
        let before = dedup_names(entries.drop_last());
        if before.len() > 0 && before.last().0 == entries.last().0 {
            before
        } else {
            before.push(entries.last())
        }
    }
}

/// The fields of a storage row in layout order: `prefix` as it stands, then
/// the rest as a uniform buffer orders it.
pub open spec fn storage_order(prefix: Seq<Entry>, entries: Seq<Entry>) -> Seq<Entry> {
    dedup_names(
        prefix + uniform_order(not_in_prefix(prefix, entries, entries.len() as int)),
    )
}

/// Being the field of this name.
pub open spec fn field_named(name: Seq<char>) -> spec_fn(FieldLayoutView) -> bool {
    |f: FieldLayoutView| f.name == name
}

impl BufferLayoutView {
    /// The field of a name.
    pub open spec fn field(self, name: Seq<char>) -> Option<FieldLayoutView> {
        lists::first_where(self.fields, field_named(name))
    }
}

// ---------------------------------------------------------------------------
// Laws of the layout

pub(crate) proof fn lemma_rounded_up(align: int, value: int)
    requires
        align > 0,
        value >= 0,
    ensures
        rounded_up(align, value) % align == 0,
        value <= rounded_up(align, value) < value + align,
{
    let q = (value + align - 1) / align;
    assert(q * align % align == 0) by (nonlinear_arith)
        requires
            align > 0,
    ;
    assert(value <= q * align < value + align) by (nonlinear_arith)
        requires
            align > 0,
            value >= 0,
            q == (value + align - 1) / align,
    ;
}

pub(crate) proof fn lemma_end_bound(entries: Seq<Entry>)
    ensures
        0 <= end_of(entries) <= 80 * entries.len(),
        largest_align(entries) <= 16,
        fields_of(entries).len() <= entries.len(),
        fields_of(entries).len() > 0 ==> largest_align(entries) >= 4,
        fields_of(entries).len() == 0 ==> end_of(entries) == 0,
    decreases entries.len(),
{
    if entries.len() > 0 {
        lemma_end_bound(entries.drop_last());
        let ty = entries.last().1;
        if ty.buffer_align() is Some {
            lemma_rounded_up(ty.buffer_align()->0 as int, end_of(entries.drop_last()));
        }
    }
}

proof fn lemma_end_grows(entries: Seq<Entry>, n: int)
    requires
        0 <= n <= entries.len(),
    ensures
        end_of(entries.take(n)) <= end_of(entries),
        fields_of(entries.take(n)).len() <= fields_of(entries).len(),
    decreases entries.len(),
{
    if n == entries.len() {
        assert(entries.take(n) =~= entries);
    } else {
        let t = entries.drop_last();
        lemma_end_grows(t, n);
        lemma_end_bound(t);
        assert(t.take(n) =~= entries.take(n));
        let ty = entries.last().1;
        if ty.buffer_align() is Some {
            lemma_rounded_up(ty.buffer_align()->0 as int, end_of(t));
        }
    }
}

/// A list of moderate length can be laid out, whatever is in it.
pub proof fn short_lists_fit(entries: Seq<Entry>, min_align: u32)
    requires
        80 * entries.len() + 16 <= u32::MAX,
        min_align <= 16,
    ensures
        layout_fits(entries, min_align),
{
    lemma_end_bound(entries);
    if fields_of(entries).len() > 0 {
        lemma_rounded_up(layout_align(entries, min_align) as int, end_of(entries));
    }
}

pub(crate) proof fn lemma_fields_in_place(entries: Seq<Entry>)
    requires
        end_of(entries) <= u32::MAX,
    ensures
        forall|i: int|
            #![trigger fields_of(entries)[i]]
            0 <= i < fields_of(entries).len() ==> {
                let f = fields_of(entries)[i];
                &&& f.ty.buffer_align() is Some
                &&& f.ty.buffer_size() == Some(f.size)
                &&& f.offset % f.ty.buffer_align()->0 == 0
                &&& f.offset + f.size <= end_of(entries)
            },
        forall|i: int, j: int|
            #![trigger fields_of(entries)[i], fields_of(entries)[j]]
            0 <= i < j < fields_of(entries).len() ==> fields_of(entries)[i].offset + fields_of(
                entries,
            )[i].size <= fields_of(entries)[j].offset,
    decreases entries.len(),
{
    if entries.len() > 0 {
        let t = entries.drop_last();
        lemma_end_grows(entries, entries.len() - 1);
        assert(entries.take(entries.len() - 1) =~= t);
        lemma_fields_in_place(t);
        lemma_end_bound(t);
        lemma_end_bound(entries);
        let ty = entries.last().1;
        if ty.buffer_align() is Some {
            lemma_rounded_up(ty.buffer_align()->0 as int, end_of(t));
            let before = fields_of(t);
            let all = fields_of(entries);
            assert forall|i: int| 0 <= i < before.len() implies all[i] == #[trigger] before[i] by {}
        }
    }
}

/// What is laid out lies well: aligned, apart, inside the buffer.
pub proof fn layout_lies_well(entries: Seq<Entry>, min_align: u32)
    requires
        layout_fits(entries, min_align),
        min_align <= 16,
    ensures
        well_laid(laid_out(entries, min_align)),
        fields_of(entries).len() > 0 ==> laid_out(entries, min_align).align >= min_align,
{
    lemma_end_bound(entries);
    let l = laid_out(entries, min_align);
    if l.fields.len() > 0 {
        lemma_rounded_up(l.align as int, end_of(entries));
    }
    lemma_fields_in_place(entries);
}

pub(crate) proof fn lemma_by_alignment_is_strict()
    ensures
        sorting::strict_order(by_alignment()),
{
    let less = by_alignment();
    assert forall|a: Entry, b: Entry| #[trigger] less(a, b) implies !less(b, a) by {
        text::text_less_total(a.0, b.0);
    }
    assert forall|a: Entry, b: Entry, c: Entry|
        !(#[trigger] less(b, a)) && !(#[trigger] less(c, b)) implies !less(c, a) by {
        text::text_less_total(a.0, b.0);
        text::text_less_total(b.0, c.0);
        text::text_less_total(a.0, c.0);
        if less(c, a) && align_rank(c.1) == align_rank(a.1) && align_rank(b.1) == align_rank(a.1) {
            if text::text_less(a.0, b.0) {
                text::text_less_transitive(c.0, a.0, b.0);
            }
        }
    }
}

/// No two declarations have one name.
pub open spec fn distinct_names(entries: Seq<Entry>) -> bool {
    forall|i: int, j: int|
        0 <= i < j < entries.len() ==> (#[trigger] entries[i]).0 != (#[trigger] entries[j]).0
}

proof fn lemma_nothing_superseded(entries: Seq<Entry>, n: int)
    requires
        distinct_names(entries),
        0 <= n <= entries.len(),
    ensures
        last_of_each(entries, n) == entries.take(n),
    decreases n,
{
    if n > 0 {
        lemma_nothing_superseded(entries, n - 1);
        assert(entries.take(n) =~= entries.take(n - 1).push(entries[n - 1]));
    } else {
        assert(entries.take(0) =~= Seq::<Entry>::empty());
    }
}

/// The order of a uniform buffer is a property of what is declared, not of the
/// order in which it is declared.
pub proof fn order_ignores_declaration_order(a: Seq<Entry>, b: Seq<Entry>)
    requires
        distinct_names(a),
        distinct_names(b),
        forall|e: Entry| a.contains(e) <==> b.contains(e),
    ensures
        uniform_order(a) == uniform_order(b),
{
    lemma_nothing_superseded(a, a.len() as int);
    lemma_nothing_superseded(b, b.len() as int);
    assert(a.take(a.len() as int) =~= a);
    assert(b.take(b.len() as int) =~= b);
    let less = by_alignment();
    lemma_by_alignment_is_strict();
    sorting::lemma_sorted(a, less);
    sorting::lemma_sorted(b, less);
    let s = sorting::sorted(a, less);
    let t = sorting::sorted(b, less);
    lemma_sorted_keeps_distinct(a);
    lemma_sorted_keeps_distinct(b);
    assert forall|i: int, j: int|
        0 <= i < s.len() && 0 <= j < s.len() && i != j implies less(#[trigger] s[i], #[trigger] s[j])
        || less(s[j], s[i]) by {
        text::text_less_total(s[i].0, s[j].0);
        assert(s[i].0 != s[j].0);
    }
    assert forall|e: Entry| s.contains(e) <==> t.contains(e) by {
        assert(s.contains(e) <==> a.contains(e));
        assert(t.contains(e) <==> b.contains(e));
    }
    sorting::lemma_order_is_unique(s, t, less);
}

pub(crate) proof fn lemma_sorted_keeps_distinct(a: Seq<Entry>)
    requires
        distinct_names(a),
    ensures
        sorting::sorted(a, by_alignment()).no_duplicates(),
        forall|i: int, j: int|
            0 <= i < sorting::sorted(a, by_alignment()).len() && 0 <= j < sorting::sorted(a, by_alignment()).len()
                && i != j ==> (#[trigger] sorting::sorted(a, by_alignment())[i]).0 != (#[trigger] sorting::sorted(
                a,
                by_alignment(),
            )[j]).0,
{
    let less = by_alignment();
    lemma_by_alignment_is_strict();
    sorting::lemma_sorted(a, less);
    let s = sorting::sorted(a, less);
    assert(a.no_duplicates());
    a.lemma_multiset_has_no_duplicates();
    assert(s.no_duplicates()) by {
        s.lemma_multiset_has_no_duplicates_conv();
    }
    assert forall|i: int, j: int| 0 <= i < s.len() && 0 <= j < s.len() && i != j implies (
    #[trigger] s[i]).0 != (#[trigger] s[j]).0 by {
        assert(s.contains(s[i]) && s.contains(s[j]));
        let m = choose|m: int| 0 <= m < a.len() && a[m] == s[i];
        let n = choose|n: int| 0 <= n < a.len() && a[n] == s[j];
        assert(s[i] != s[j]);
        assert(m != n);
        if m < n {
            assert(a[m].0 != a[n].0);
        } else {
            assert(a[n].0 != a[m].0);
        }
    }
}


// ---------------------------------------------------------------------------
// Computing the layout

proof fn lemma_rounding(align: int, value: int)
    requires
        align > 0,
        value >= 0,
    ensures
        rounded_up(align, value) == (if value % align == 0 {
            value
        } else {
            value + (align - value % align)
        }),
{
    let q = value / align;
    let r = value % align;
    let up = (value + align - 1) / align;
    assert(value == align * q + r && 0 <= r < align) by (nonlinear_arith)
        requires
            align > 0,
            q == value / align,
            r == value % align,
    ;
    if r == 0 {
        assert(up == q) by (nonlinear_arith)
            requires
                align > 0,
                value == align * q,
                up == (value + align - 1) / align,
        ;
        assert(up * align == value) by (nonlinear_arith)
            requires
                up == q,
                value == align * q,
        ;
    } else {
        assert(up == q + 1) by (nonlinear_arith)
            requires
                align > 0,
                0 < r < align,
                value == align * q + r,
                up == (value + align - 1) / align,
        ;
        assert(up * align == value + (align - r)) by (nonlinear_arith)
            requires
                up == q + 1,
                value == align * q + r,
        ;
    }
}

fn round_up(align: u32, value: u32) -> (r: u64)
    requires
        align > 0,
    ensures
        r == rounded_up(align as int, value as int),
{
    proof {
        lemma_rounding(align as int, value as int);
    }
    let over: u32 = value % align;
    if over == 0 {
        value as u64
    } else {
        value as u64 + (align - over) as u64
    }
}

/// Put `entries` in layout order: widest alignment first, then by name.
fn sort_by_alignment(entries: Vec<(WxslIdent, ValueType)>) -> (r: Vec<(WxslIdent, ValueType)>)
    ensures
        text::seq_of(r@) == sorting::sorted(text::seq_of(entries@), by_alignment()),
{
    let less = |a: &(WxslIdent, ValueType), b: &(WxslIdent, ValueType)| -> (c: bool)
        ensures
            c == by_alignment()(a@, b@),
        {
            let x: u32 = rank_of(a.1);
            let y: u32 = rank_of(b.1);
            x > y || (x == y && is_text_less(a.0.as_str(), b.0.as_str()))
        };
    sort_stable(entries, less, Ghost(by_alignment()))
}

fn rank_of(ty: ValueType) -> (r: u32)
    ensures
        r == align_rank(ty),
{
    match ty.buffer_align() {
        Some(align) => align,
        None => 0,
    }
}

/// Put `entries` in name order.
pub(crate) fn sort_by_name(entries: Vec<(WxslIdent, ValueType)>) -> (r: Vec<(WxslIdent, ValueType)>)
    ensures
        text::seq_of(r@) == sorting::sorted(text::seq_of(entries@), by_name()),
{
    let less = |a: &(WxslIdent, ValueType), b: &(WxslIdent, ValueType)| -> (c: bool)
        ensures
            c == by_name()(a@, b@),
        { is_text_less(a.0.as_str(), b.0.as_str()) };
    sort_stable(entries, less, Ghost(by_name()))
}

fn keep_last_of_each(entries: &Vec<(WxslIdent, ValueType)>) -> (r: Vec<(WxslIdent, ValueType)>)
    ensures
        text::seq_of(r@) == last_of_each(text::seq_of(entries@), entries@.len() as int),
        r@.len() <= entries@.len(),
{
    let ghost s = text::seq_of(entries@);
    let mut r: Vec<(WxslIdent, ValueType)> = Vec::new();
    let mut i: usize = 0;
    assert(text::seq_of(r@) =~= last_of_each(s, 0));
    while i < entries.len()
        invariant
            i <= entries@.len() == s.len(),
            s == text::seq_of(entries@),
            r@.len() <= i,
            text::seq_of(r@) == last_of_each(s, i as int),
        decreases s.len() - i,
    {
        let mut j: usize = i + 1;
        while j < entries.len() && !same_text(entries[j].0.as_str(), entries[i].0.as_str())
            invariant
                i < j <= entries@.len() == s.len(),
                s == text::seq_of(entries@),
                forall|k: int| i < k < j ==> (#[trigger] s[k]).0 != s[i as int].0,
            decreases s.len() - j,
        {
            j += 1;
        }
        if j >= entries.len() {
            assert(!superseded(s, i as int));
            let ghost before = r@;
            r.push((entries[i].0.clone(), entries[i].1));
            assert(text::seq_of(r@) =~= text::seq_of(before).push(s[i as int]));
        } else {
            assert(s[j as int].0 == s[i as int].0);
            assert(superseded(s, i as int));
        }
        i += 1;
    }
    r
}

fn is_declared(entries: &Vec<(WxslIdent, ValueType)>, name: &str) -> (r: bool)
    ensures
        r == declares(text::seq_of(entries@), name@),
{
    let ghost s = text::seq_of(entries@);
    let mut j: usize = 0;
    while j < entries.len()
        invariant
            j <= entries@.len() == s.len(),
            s == text::seq_of(entries@),
            forall|k: int| 0 <= k < j ==> (#[trigger] s[k]).0 != name@,
        decreases s.len() - j,
    {
        if same_text(entries[j].0.as_str(), name) {
            assert(s[j as int].0 == name@);
            return true;
        }
        j += 1;
    }
    false
}

fn drop_declared(
    prefix: &Vec<(WxslIdent, ValueType)>,
    entries: &Vec<(WxslIdent, ValueType)>,
) -> (r: Vec<(WxslIdent, ValueType)>)
    ensures
        text::seq_of(r@) == not_in_prefix(text::seq_of(prefix@), text::seq_of(entries@), entries@.len() as int),
        r@.len() <= entries@.len(),
{
    let ghost s = text::seq_of(entries@);
    let ghost p = text::seq_of(prefix@);
    let mut r: Vec<(WxslIdent, ValueType)> = Vec::new();
    let mut i: usize = 0;
    assert(text::seq_of(r@) =~= not_in_prefix(p, s, 0));
    while i < entries.len()
        invariant
            i <= entries@.len() == s.len(),
            s == text::seq_of(entries@),
            p == text::seq_of(prefix@),
            r@.len() <= i,
            text::seq_of(r@) == not_in_prefix(p, s, i as int),
        decreases s.len() - i,
    {
        if !is_declared(prefix, entries[i].0.as_str()) {
            let ghost before = r@;
            r.push((entries[i].0.clone(), entries[i].1));
            assert(text::seq_of(r@) =~= text::seq_of(before).push(s[i as int]));
        }
        i += 1;
    }
    r
}

/// Drop every declaration that has the name of the one before it.
pub(crate) fn drop_repeats(entries: &Vec<(WxslIdent, ValueType)>) -> (r: Vec<(WxslIdent, ValueType)>)
    ensures
        text::seq_of(r@) == dedup_names(text::seq_of(entries@)),
        r@.len() <= entries@.len(),
{
    let ghost s = text::seq_of(entries@);
    let mut r: Vec<(WxslIdent, ValueType)> = Vec::new();
    let mut i: usize = 0;
    assert(text::seq_of(r@) =~= dedup_names(s.take(0)));
    while i < entries.len()
        invariant
            i <= entries@.len() == s.len(),
            s == text::seq_of(entries@),
            r@.len() <= i,
            i > 0 ==> r@.len() > 0,
            text::seq_of(r@) == dedup_names(s.take(i as int)),
        decreases s.len() - i,
    {
        let ghost before = r@;
        proof {
            assert(s.take(i + 1).drop_last() =~= s.take(i as int));
            assert(s.take(i + 1).last() == s[i as int]);
            assert(text::seq_of(before).len() == before.len());
        }
        let n: usize = r.len();
        let repeats = n > 0 && same_text(r[n - 1].0.as_str(), entries[i].0.as_str());
        if repeats {
            assert(text::seq_of(before).last().0 == s[i as int].0);
        } else {
            r.push((entries[i].0.clone(), entries[i].1));
            assert(text::seq_of(r@) =~= text::seq_of(before).push(s[i as int]));
            proof {
                if n > 0 {
                    assert(text::seq_of(before).last().0 != s[i as int].0);
                } else {
                    assert(s.take(1) =~= seq![s[0]]);
                    assert(text::seq_of(r@) =~= s.take(1));
                }
            }
        }
        i += 1;
    }
    assert(s.take(i as int) =~= s);
    r
}

pub(crate) proof fn lemma_layout_ends(entries: Seq<Entry>, min_align: u32)
    requires
        layout_fits(entries, min_align),
    ensures
        end_of(entries) <= u32::MAX,
{
    lemma_end_bound(entries);
    if fields_of(entries).len() > 0 {
        lemma_rounded_up(layout_align(entries, min_align) as int, end_of(entries));
    }
}

/// Whether `entries` can be given offsets in the order they stand in.
fn can_lay_out(entries: &Vec<(WxslIdent, ValueType)>, min_align: u32) -> (r: bool)
    requires
        min_align <= 16,
    ensures
        r == layout_fits(text::seq_of(entries@), min_align),
{
    let ghost s = text::seq_of(entries@);
    let mut offset: u32 = 0;
    let mut align: u32 = 0;
    let mut i: usize = 0;
    while i < entries.len()
        invariant
            i <= entries@.len() == s.len(),
            min_align <= 16,
            s == text::seq_of(entries@),
            offset == end_of(s.take(i as int)),
            align == largest_align(s.take(i as int)),
        decreases s.len() - i,
    {
        proof {
            assert(s.take(i + 1).drop_last() =~= s.take(i as int));
            assert(s.take(i + 1).last() == s[i as int]);
            lemma_end_bound(s.take(i as int));
            lemma_end_grows(s, i + 1);
            lemma_end_bound(s);
            lemma_rounded_up(16, end_of(s));
        }
        let ty = entries[i].1;
        match (ty.buffer_align(), ty.buffer_size()) {
            (Some(field_align), Some(size)) => {
                proof {
                    lemma_rounded_up(field_align as int, offset as int);
                }
                let end: u64 = round_up(field_align, offset) + size as u64;
                if end > u32::MAX as u64 {
                    proof {
                        lemma_rounded_up(layout_align(s, min_align) as int, end_of(s));
                    }
                    return false;
                }
                offset = end as u32;
                if field_align > align {
                    align = field_align;
                }
            },
            _ => {},
        }
        i += 1;
    }
    assert(s.take(i as int) =~= s);
    proof {
        lemma_end_bound(s);
    }
    if align == 0 {
        return true;
    }
    proof {
        lemma_no_align(s);
    }
    if min_align > align {
        align = min_align;
    }
    round_up(align, offset) <= u32::MAX as u64
}

pub(crate) proof fn lemma_no_align(entries: Seq<Entry>)
    ensures
        fields_of(entries).len() > 0 <==> largest_align(entries) > 0,
    decreases entries.len(),
{
    if entries.len() > 0 {
        lemma_no_align(entries.drop_last());
    }
}

/// Whether a uniform buffer can hold these fields.
pub(crate) fn uniform_fits(fields: &Vec<(WxslIdent, ValueType)>) -> (r: bool)
    ensures
        r == layout_fits(uniform_order(text::seq_of(fields@)), 16),
{
    let entries = sort_by_alignment(keep_last_of_each(fields));
    can_lay_out(&entries, 16)
}

/// Give `entries` offsets in the order they stand in.
fn lay_out(entries: &Vec<(WxslIdent, ValueType)>, min_align: u32) -> (r: BufferLayout)
    requires
        layout_fits(text::seq_of(entries@), min_align),
        min_align <= 16,
    ensures
        r@ == laid_out(text::seq_of(entries@), min_align),
{
    let ghost s = text::seq_of(entries@);
    let mut fields: Vec<FieldLayout> = Vec::new();
    let mut offset: u32 = 0;
    let mut align: u32 = 0;
    let mut i: usize = 0;
    assert(text::seq_of(fields@) =~= fields_of(s.take(0)));
    proof {
        lemma_layout_ends(s, min_align);
    }
    while i < entries.len()
        invariant
            i <= entries@.len() == s.len(),
            end_of(s) <= u32::MAX,
            s == text::seq_of(entries@),
            text::seq_of(fields@) == fields_of(s.take(i as int)),
            offset == end_of(s.take(i as int)),
            align == largest_align(s.take(i as int)),
        decreases s.len() - i,
    {
        proof {
            assert(s.take(i + 1).drop_last() =~= s.take(i as int));
            assert(s.take(i + 1).last() == s[i as int]);
            lemma_end_bound(s.take(i as int));
            lemma_end_grows(s, i + 1);
        }
        let ty = entries[i].1;
        match (ty.buffer_align(), ty.buffer_size()) {
            (Some(field_align), Some(size)) => {
                proof {
                    lemma_rounded_up(field_align as int, offset as int);
                }
                offset = round_up(field_align, offset) as u32;
                let ghost before = fields@;
                fields.push(FieldLayout { name: entries[i].0.clone(), ty, offset, size });
                assert(text::seq_of(fields@) =~= fields_of(s.take(i + 1)));
                offset = offset + size;
                if field_align > align {
                    align = field_align;
                }
            },
            _ => {},
        }
        i += 1;
    }
    assert(s.take(i as int) =~= s);
    proof {
        layout_lies_well(s, min_align);
        lemma_end_bound(s);
        assert(text::seq_of(fields@).len() == fields@.len());
    }
    if fields.len() == 0 {
        return BufferLayout::default();
    }
    if min_align > align {
        align = min_align;
    }
    proof {
        lemma_rounded_up(align as int, offset as int);
    }
    let size: u32 = round_up(align, offset) as u32;
    assert(laid_out(s, min_align) =~= (BufferLayoutView {
        fields: text::seq_of(fields@),
        size,
        align,
    }));
    BufferLayout { fields, size, align }
}

/// The 32-bit words a value is stored as.
pub open spec fn words_of(v: Value) -> Seq<u32> {
    match v {
        Value::Bool(b) => seq![if b { 1u32 } else { 0u32 }],
        Value::I32(n) => seq![word_of_signed(n)],
        Value::U32(n) => seq![n],
        Value::F32(x) => seq![x.bits],
        Value::Vec2(xs) => bits_of(xs@),
        Value::Vec3(xs) => bits_of(xs@),
        Value::Vec4(xs) => bits_of(xs@),
        Value::Mat3(xs) => bits_of(xs@),
        Value::Mat4(xs) => bits_of(xs@),
    }
}

/// The bits of each float.
pub open spec fn bits_of(xs: Seq<Float>) -> Seq<u32> {
    Seq::new(xs.len(), |i: int| xs[i].bits)
}

/// A signed number as the word of the same bits.
pub open spec fn word_of_signed(n: i32) -> u32 {
    if n < 0 {
        (n + 0x1_0000_0000) as u32
    } else {
        n as u32
    }
}

/// The signed number of the same bits as a word.
pub open spec fn signed_of_word(w: u32) -> i32 {
    if w >= 0x8000_0000 {
        (w - 0x1_0000_0000) as i32
    } else {
        w as i32
    }
}

/// The number of words a type is stored as.
pub open spec fn word_count(ty: ValueType) -> int {
    match ty {
        ValueType::Vec2 => 2,
        ValueType::Vec3 => 3,
        ValueType::Vec4 => 4,
        ValueType::Mat3 => 9,
        ValueType::Mat4 => 16,
        _ => 1,
    }
}

/// Where the `k`th word of a type lies from its first byte: one after the
/// other, but for the columns of a 3×3 matrix, which are padded to four words.
pub open spec fn word_place(ty: ValueType, k: int) -> int {
    if ty == ValueType::Mat3 {
        (k / 3) * 16 + (k % 3) * 4
    } else {
        k * 4
    }
}

/// The value of a type stored as `w`.
pub open spec fn value_of_words(ty: ValueType, w: Seq<u32>) -> Option<Value> {
    let f = |i: int| Float { bits: w[i] };
    match ty {
        ValueType::Bool => Some(Value::Bool(w[0] != 0)),
        ValueType::I32 => Some(Value::I32(signed_of_word(w[0]))),
        ValueType::U32 => Some(Value::U32(w[0])),
        ValueType::F32 => Some(Value::F32(f(0))),
        ValueType::Vec2 => Some(Value::Vec2([f(0), f(1)])),
        ValueType::Vec3 => Some(Value::Vec3([f(0), f(1), f(2)])),
        ValueType::Vec4 => Some(Value::Vec4([f(0), f(1), f(2), f(3)])),
        ValueType::Mat3 => Some(
            Value::Mat3([f(0), f(1), f(2), f(3), f(4), f(5), f(6), f(7), f(8)]),
        ),
        ValueType::Mat4 => Some(
            Value::Mat4(
                [
                    f(0),
                    f(1),
                    f(2),
                    f(3),
                    f(4),
                    f(5),
                    f(6),
                    f(7),
                    f(8),
                    f(9),
                    f(10),
                    f(11),
                    f(12),
                    f(13),
                    f(14),
                    f(15),
                ],
            ),
        ),
        _ => None,
    }
}

/// `bytes` with a word at `at`, least significant byte first.
pub open spec fn put_word(bytes: Seq<u8>, at: int, w: u32) -> Seq<u8> {
    bytes.update(at, (w % 256) as u8).update(at + 1, ((w / 256) % 256) as u8).update(
        at + 2,
        ((w / 65536) % 256) as u8,
    ).update(at + 3, (w / 16777216) as u8)
}

/// The word at `at`, least significant byte first.
pub open spec fn get_word(bytes: Seq<u8>, at: int) -> u32 {
    (bytes[at] + bytes[at + 1] * 256 + bytes[at + 2] * 65536 + bytes[at + 3] * 16777216) as u32
}

/// `bytes` with the first `n` words of a value stored at `start`.
pub open spec fn with_words(
    bytes: Seq<u8>,
    start: int,
    ty: ValueType,
    w: Seq<u32>,
    n: int,
) -> Seq<u8>
    decreases n,
{
    if n <= 0 {
        bytes
    } else {
        put_word(with_words(bytes, start, ty, w, n - 1), start + word_place(ty, n - 1), w[n - 1])
    }
}

/// `bytes` with a value stored at `start`.
pub open spec fn with_value(bytes: Seq<u8>, start: int, v: Value) -> Seq<u8> {
    with_words(bytes, start, v.ty(), words_of(v), word_count(v.ty()))
}

/// The words of a value of a type stored at `start`.
pub open spec fn stored_words(bytes: Seq<u8>, start: int, ty: ValueType) -> Seq<u32> {
    Seq::new(word_count(ty) as nat, |k: int| get_word(bytes, start + word_place(ty, k)))
}

/// What reading a field gives.
pub open spec fn read_of(l: BufferLayoutView, bytes: Seq<u8>, name: Seq<char>) -> Option<Value> {
    match l.field(name) {
        None => None,
        Some(f) => if bytes.len() < f.offset + f.size {
            None
        } else {
            value_of_words(f.ty, stored_words(bytes, f.offset as int, f.ty))
        },
    }
}

/// Why a value cannot be written into a layout.
#[derive(Debug, PartialEq)]
pub enum LayoutError {
    /// No field of that name.
    UnknownField {
        /// The name that was asked for.
        field: String,
    },
    /// The value's type is not the field's.
    TypeMismatch {
        /// The field.
        field: String,
        /// The type of the value.
        supplied: ValueType,
        /// The type of the field.
        expected: ValueType,
    },
    /// The buffer ends before the field does.
    BufferTooSmall {
        /// The field.
        field: String,
        /// The bytes that are needed.
        needed: usize,
        /// The bytes that there are.
        len: usize,
    },
}

/// What a [`LayoutError`] stands for.
pub enum LayoutErrorView {
    /// No field of that name.
    UnknownField {
        /// The name that was asked for.
        field: Seq<char>,
    },
    /// The value's type is not the field's.
    TypeMismatch {
        /// The field.
        field: Seq<char>,
        /// The type of the value.
        supplied: ValueType,
        /// The type of the field.
        expected: ValueType,
    },
    /// The buffer ends before the field does.
    BufferTooSmall {
        /// The field.
        field: Seq<char>,
        /// The bytes that are needed.
        needed: usize,
        /// The bytes that there are.
        len: usize,
    },
}

impl View for LayoutError {
    type V = LayoutErrorView;

    open spec fn view(&self) -> LayoutErrorView {
        match *self {
            LayoutError::UnknownField { field } => LayoutErrorView::UnknownField { field: field@ },
            LayoutError::TypeMismatch { field, supplied, expected } => LayoutErrorView::TypeMismatch {
                field: field@,
                supplied,
                expected,
            },
            LayoutError::BufferTooSmall { field, needed, len } => LayoutErrorView::BufferTooSmall {
                field: field@,
                needed,
                len,
            },
        }
    }
}

/// An error as a message.
pub open spec fn layout_error_text(e: LayoutErrorView) -> Seq<char> {
    match e {
        LayoutErrorView::UnknownField { field } => "no parameter named `"@ + field
            + "` in this material"@,
        LayoutErrorView::TypeMismatch { field, supplied, expected } => "parameter `"@ + field
            + "` is "@ + expected.wxsl_type()@ + ", but a "@ + supplied.wxsl_type()@
            + " was written to it"@,
        LayoutErrorView::BufferTooSmall { field, needed, len } => "writing `"@ + field
            + "` needs "@ + text::decimal(needed as nat) + " bytes but the buffer is "@ + text::decimal(
            len as nat,
        ),
    }
}

impl LayoutError {
    /// The error as a message.
    pub fn text(&self) -> (r: String)
        ensures
            r@ == layout_error_text(self@),
    {
        match self {
            LayoutError::UnknownField { field } => {
                let mut out = "no parameter named `".to_owned();
                out.append(field.as_str());
                out.append("` in this material");
                out
            },
            LayoutError::TypeMismatch { field, supplied, expected } => {
                let mut out = "parameter `".to_owned();
                out.append(field.as_str());
                out.append("` is ");
                out.append(expected.wxsl_type());
                out.append(", but a ");
                out.append(supplied.wxsl_type());
                out.append(" was written to it");
                out
            },
            LayoutError::BufferTooSmall { field, needed, len } => {
                let mut out = "writing `".to_owned();
                out.append(field.as_str());
                out.append("` needs ");
                push_number(&mut out, *needed as u64);
                out.append(" bytes but the buffer is ");
                push_number(&mut out, *len as u64);
                out
            },
        }
    }
}

/// What writing a value gives, and why it is refused.
pub open spec fn write_outcome(
    l: BufferLayoutView,
    len: nat,
    name: Seq<char>,
    v: Value,
) -> Result<(), LayoutErrorView> {
    match l.field(name) {
        None => Err(LayoutErrorView::UnknownField { field: name }),
        Some(f) => if v.ty() != f.ty {
            Err(LayoutErrorView::TypeMismatch { field: name, supplied: v.ty(), expected: f.ty })
        } else if len < f.offset + f.size {
            Err(
                LayoutErrorView::BufferTooSmall {
                    field: name,
                    needed: (f.offset + f.size) as usize,
                    len: len as usize,
                },
            )
        } else {
            Ok(())
        },
    }
}

/// The bytes after writing a value; unchanged where that is refused.
pub open spec fn write_of(
    l: BufferLayoutView,
    bytes: Seq<u8>,
    name: Seq<char>,
    v: Value,
) -> Seq<u8> {
    if write_outcome(l, bytes.len(), name, v) is Ok {
        with_value(bytes, l.field(name)->0.offset as int, v)
    } else {
        bytes
    }
}

/// `bytes` with the defaults of the first `n` fields written.
pub open spec fn filled_upto(
    l: BufferLayoutView,
    defaults: Map<Seq<char>, Value>,
    bytes: Seq<u8>,
    n: int,
) -> Seq<u8>
    decreases n,
{
    if n <= 0 {
        bytes
    } else {
        let before = filled_upto(l, defaults, bytes, n - 1);
        let name = l.fields[n - 1].name;
        if defaults.contains_key(name) {
            write_of(l, before, name, defaults[name])
        } else {
            before
        }
    }
}

/// The struct declaration of a layout, up to the `n`th field.
pub open spec fn struct_fields_text(out: Seq<char>, fields: Seq<FieldLayoutView>, n: int) -> Seq<
    char,
>
    decreases n,
{
    if n <= 0 {
        out
    } else {
        struct_fields_text(out, fields, n - 1) + "    "@ + fields[n - 1].name + ": "@
            + fields[n - 1].ty.buffer_type()->0@ + ",\n"@
    }
}

/// The struct declaration of a layout.
pub open spec fn struct_text(l: BufferLayoutView, name: Seq<char>) -> Seq<char> {
    struct_fields_text(
        "struct "@ + name + " {\n"@,
        l.fields,
        l.fields.len() as int,
    ) + "}\n"@
}

/// The expression that reads a field of a variable.
pub open spec fn read_text(l: BufferLayoutView, var: Seq<char>, name: Seq<char>) -> Option<
    Seq<char>,
> {
    match l.field(name) {
        None => None,
        Some(f) => if f.ty == ValueType::Bool {
            Some("("@ + var + "."@ + name + " != 0u)"@)
        } else {
            Some(var + "."@ + name)
        },
    }
}

/// `name:type@offset;` for the first `n` fields.
pub open spec fn layout_signature_upto(out: Seq<char>, fields: Seq<FieldLayoutView>, n: int) -> Seq<
    char,
>
    decreases n,
{
    if n <= 0 {
        out
    } else {
        layout_signature_upto(out, fields, n - 1) + fields[n - 1].name + ":"@
            + fields[n - 1].ty.wxsl_type()@ + "@"@ + text::decimal(fields[n - 1].offset as nat) + ";"@
    }
}

/// One line that tells two layouts apart, appended to `out`.
pub open spec fn layout_signature(out: Seq<char>, l: BufferLayoutView) -> Seq<char> {
    layout_signature_upto(out, l.fields, l.fields.len() as int)
}

impl BufferLayout {
    #[verifier::type_invariant]
    spec fn wf(self) -> bool {
        well_laid(self@)
    }

    /// Lay `fields` out as a uniform buffer: of two with one name the later,
    /// widest alignment first, then by name, the whole aligned to 16 bytes.
    pub fn uniform(fields: Vec<(WxslIdent, ValueType)>) -> (r: Self)
        requires
            layout_fits(uniform_order(text::seq_of(fields@)), 16),
        ensures
            r@ == laid_out(uniform_order(text::seq_of(fields@)), 16),
            well_laid(r@),
    {
        let kept = keep_last_of_each(&fields);
        proof {
            lemma_by_alignment_is_strict();
            sorting::lemma_sorted(text::seq_of(kept@), by_alignment());
        }
        let entries = sort_by_alignment(kept);
        assert(text::seq_of(entries@).len() == entries@.len());
        let r = lay_out(&entries, 16);
        proof {
            use_type_invariant(&r);
        }
        r
    }

    /// Lay a storage row out: `prefix` in the order given, then `fields` as a
    /// uniform buffer orders them, aligned to no more than its fields are.
    pub fn storage(
        prefix: Vec<(WxslIdent, ValueType)>,
        fields: Vec<(WxslIdent, ValueType)>,
    ) -> (r: Self)
        requires
            layout_fits(storage_order(text::seq_of(prefix@), text::seq_of(fields@)), 0),
        ensures
            r@ == laid_out(storage_order(text::seq_of(prefix@), text::seq_of(fields@)), 0),
            well_laid(r@),
    {
        let rest = drop_declared(&prefix, &fields);
        let kept = keep_last_of_each(&rest);
        proof {
            lemma_by_alignment_is_strict();
            sorting::lemma_sorted(text::seq_of(kept@), by_alignment());
        }
        let mut tail = sort_by_alignment(kept);
        let ghost p = text::seq_of(prefix@);
        let ghost t = text::seq_of(tail@);
        assert(t.len() == tail@.len());
        let mut entries = prefix;
        let ghost before = entries@;
        let ghost after = tail@;
        entries.append(&mut tail);
        assert(text::seq_of(entries@) =~= p + t);
        let deduped = drop_repeats(&entries);
        let r = lay_out(&deduped, 0);
        proof {
            use_type_invariant(&r);
        }
        r
    }

    /// The fields, in layout order.
    pub fn fields(&self) -> (r: &Vec<FieldLayout>)
        ensures
            text::seq_of(r@) == self@.fields,
            well_laid(self@),
    {
        proof {
            use_type_invariant(self);
        }
        &self.fields
    }

    /// The field of a name.
    pub fn field(&self, name: &str) -> (r: Option<&FieldLayout>)
        ensures
            text::opt_of(r) == self@.field(name@),
    {
        let ghost s = self@.fields;
        let ghost p = field_named(name@);
        let mut i: usize = 0;
        assert(s.skip(0) =~= s);
        while i < self.fields.len()
            invariant
                i <= s.len() == self.fields@.len(),
                s == text::seq_of(self.fields@),
                p == field_named(name@),
                lists::first_where(s, p) == lists::first_where(s.skip(i as int), p),
            decreases s.len() - i,
        {
            proof {
                lists::lemma_first_where_skip(s, p, i as int);
            }
            if same_text(self.fields[i].name.as_str(), name) {
                return Some(&self.fields[i]);
            }
            i += 1;
        }
        None
    }

    /// The size in bytes; 0 without fields.
    pub fn size(&self) -> (r: u32)
        ensures
            r == self@.size,
    {
        self.size
    }

    /// The alignment in bytes.
    pub fn align(&self) -> (r: u32)
        ensures
            r == self@.align,
    {
        self.align
    }

    /// Whether there are no fields.
    pub fn is_empty(&self) -> (r: bool)
        ensures
            r == (self@.fields.len() == 0),
    {
        self.fields.len() == 0
    }

    /// A buffer of the right size, all zero.
    pub fn zeroed(&self) -> (r: Vec<u8>)
        ensures
            r@ == Seq::new(self@.size as nat, |i: int| 0u8),
    {
        let mut bytes: Vec<u8> = Vec::new();
        let n: usize = self.size as usize;
        let mut i: usize = 0;
        while i < n
            invariant
                i <= n == self@.size,
                bytes@ == Seq::new(i as nat, |j: int| 0u8),
            decreases n - i,
        {
            bytes.push(0u8);
            assert(bytes@ =~= Seq::new((i + 1) as nat, |j: int| 0u8));
            i += 1;
        }
        bytes
    }

    /// A buffer of the right size with `defaults` written and zero elsewhere.
    pub fn filled(&self, defaults: &TextMap<Value>) -> (r: Vec<u8>)
        ensures
            r@ == filled_upto(
                self@,
                defaults@,
                Seq::new(self@.size as nat, |i: int| 0u8),
                self@.fields.len() as int,
            ),
    {
        let mut bytes = self.zeroed();
        let ghost start = bytes@;
        let mut i: usize = 0;
        while i < self.fields.len()
            invariant
                i <= self@.fields.len() == self.fields@.len(),
                text::seq_of(self.fields@) == self@.fields,
                bytes@ == filled_upto(self@, defaults@, start, i as int),
            decreases self.fields@.len() - i,
        {
            let name = self.fields[i].name.as_str();
            assert(name@ == self@.fields[i as int].name);
            match defaults.get(name) {
                Some(value) => {
                    let _ = self.write(&mut bytes, name, *value);
                },
                None => {},
            }
            i += 1;
        }
        bytes
    }

    /// The struct declaration of this layout.
    pub fn wgsl_struct(&self, name: &str) -> (r: String)
        ensures
            r@ == struct_text(self@, name@),
    {
        proof {
            use_type_invariant(self);
        }
        let mut out = "struct ".to_owned();
        out.append(name);
        out.append(" {\n");
        let ghost head = out@;
        let mut i: usize = 0;
        while i < self.fields.len()
            invariant
                i <= self@.fields.len() == self.fields@.len(),
                text::seq_of(self.fields@) == self@.fields,
                well_laid(self@),
                out@ == struct_fields_text(head, self@.fields, i as int),
            decreases self.fields@.len() - i,
        {
            assert(self@.fields[i as int] == self.fields@[i as int]@);
            out.append("    ");
            out.append(self.fields[i].name.as_str());
            out.append(": ");
            out.append(self.fields[i].ty.buffer_type().unwrap());
            out.append(",\n");
            i += 1;
        }
        out.append("}\n");
        out
    }

    /// The expression that reads field `name` of a variable of this layout's
    /// struct.
    pub fn read_expr(&self, var: &str, name: &str) -> (r: Option<String>)
        ensures
            text::opt_of(r) == read_text(self@, var@, name@),
    {
        match self.field(name) {
            None => None,
            Some(field) => {
                if field.ty == ValueType::Bool {
                    let mut out = "(".to_owned();
                    out.append(var);
                    out.append(".");
                    out.append(name);
                    out.append(" != 0u)");
                    Some(out)
                } else {
                    let mut out = var.to_owned();
                    out.append(".");
                    out.append(name);
                    Some(out)
                }
            },
        }
    }

    /// Write `value` at the place of field `name`.
    pub fn write(&self, bytes: &mut Vec<u8>, name: &str, value: Value) -> (r: Result<
        (),
        LayoutError,
    >)
        ensures
            final(bytes)@ == write_of(self@, old(bytes)@, name@, value),
            match (r, write_outcome(self@, old(bytes)@.len(), name@, value)) {
                (Ok(_), Ok(_)) => true,
                (Err(e), Err(w)) => e@ == w,
                _ => false,
            },
    {
        proof {
            use_type_invariant(self);
        }
        let field = match self.field(name) {
            None => {
                return Err(LayoutError::UnknownField { field: name.to_owned() });
            },
            Some(field) => field,
        };
        proof {
            lists::lemma_first_where(self@.fields, field_named(name@));
        }
        if value.ty() != field.ty {
            return Err(
                LayoutError::TypeMismatch {
                    field: name.to_owned(),
                    supplied: value.ty(),
                    expected: field.ty,
                },
            );
        }
        let start: usize = field.offset as usize;
        let needed: usize = start + field.size as usize;
        if bytes.len() < needed {
            return Err(
                LayoutError::BufferTooSmall { field: name.to_owned(), needed, len: bytes.len() },
            );
        }
        let words = value_words(value);
        let ty = field.ty;
        let n: usize = words.len();
        let ghost before = bytes@;
        let mut k: usize = 0;
        while k < n
            invariant
                k <= n == words@.len(),
                n == word_count(ty),
                start + ty.buffer_size()->0 <= bytes@.len(),
                start + ty.buffer_size()->0 <= usize::MAX,
                ty.buffer_size() is Some,
                bytes@.len() == before.len(),
                bytes@ == with_words(before, start as int, ty, words@, k as int),
            decreases n - k,
        {
            let place: usize = if ty == ValueType::Mat3 {
                (k / 3) * 16 + (k % 3) * 4
            } else {
                k * 4
            };
            proof {
                lemma_place_fits(ty, k as int);
            }
            let at: usize = start + place;
            let w: u32 = words[k];
            bytes.set(at, (w % 256) as u8);
            bytes.set(at + 1, ((w / 256) % 256) as u8);
            bytes.set(at + 2, ((w / 65536) % 256) as u8);
            bytes.set(at + 3, (w / 16777216) as u8);
            k += 1;
        }
        Ok(())
    }

    /// Read field `name` back; nothing where there is no such field or the
    /// buffer ends before it does.
    pub fn read(&self, bytes: &Vec<u8>, name: &str) -> (r: Option<Value>)
        ensures
            r == read_of(self@, bytes@, name@),
    {
        proof {
            use_type_invariant(self);
        }
        let field = match self.field(name) {
            None => {
                return None;
            },
            Some(field) => field,
        };
        proof {
            lists::lemma_first_where(self@.fields, field_named(name@));
        }
        let start: usize = field.offset as usize;
        if bytes.len() < start + field.size as usize {
            return None;
        }
        let ty = field.ty;
        let n: usize = match ty {
            ValueType::Vec2 => 2,
            ValueType::Vec3 => 3,
            ValueType::Vec4 => 4,
            ValueType::Mat3 => 9,
            ValueType::Mat4 => 16,
            _ => 1,
        };
        let mut words: Vec<u32> = Vec::new();
        let mut k: usize = 0;
        while k < n
            invariant
                k <= n == word_count(ty),
                words@.len() == k,
                start + ty.buffer_size()->0 <= bytes@.len(),
                start + ty.buffer_size()->0 <= usize::MAX,
                ty.buffer_size() is Some,
                forall|j: int|
                    0 <= j < k ==> #[trigger] words@[j] == get_word(
                        bytes@,
                        start + word_place(ty, j),
                    ),
            decreases n - k,
        {
            let place: usize = if ty == ValueType::Mat3 {
                (k / 3) * 16 + (k % 3) * 4
            } else {
                k * 4
            };
            proof {
                lemma_place_fits(ty, k as int);
            }
            let at: usize = start + place;
            let w: u32 = bytes[at] as u32 + bytes[at + 1] as u32 * 256 + bytes[at + 2] as u32
                * 65536 + bytes[at + 3] as u32 * 16777216;
            words.push(w);
            k += 1;
        }
        assert(words@ =~= stored_words(bytes@, start as int, ty));
        value_from_words(ty, &words)
    }

    /// One line that tells two layouts apart.
    pub fn signature(&self) -> (r: String)
        ensures
            r@ == layout_signature(Seq::empty(), self@),
    {
        let mut out = String::new();
        self.push_signature(&mut out);
        out
    }

    /// Append the line that tells two layouts apart.
    pub fn push_signature(&self, out: &mut String)
        ensures
            final(out)@ == layout_signature(old(out)@, self@),
    {
        let ghost head = out@;
        let mut i: usize = 0;
        while i < self.fields.len()
            invariant
                i <= self@.fields.len() == self.fields@.len(),
                text::seq_of(self.fields@) == self@.fields,
                out@ == layout_signature_upto(head, self@.fields, i as int),
            decreases self.fields@.len() - i,
        {
            assert(self@.fields[i as int] == self.fields@[i as int]@);
            out.append(self.fields[i].name.as_str());
            out.append(":");
            out.append(self.fields[i].ty.wxsl_type());
            out.append("@");
            push_number(out, self.fields[i].offset as u64);
            out.append(";");
            i += 1;
        }
    }
}

proof fn lemma_place_fits(ty: ValueType, k: int)
    requires
        ty.buffer_size() is Some,
        0 <= k < word_count(ty),
    ensures
        0 <= word_place(ty, k),
        word_place(ty, k) + 4 <= ty.buffer_size()->0,
{
}

fn value_words(v: Value) -> (r: Vec<u32>)
    ensures
        r@ == words_of(v),
        r@.len() == word_count(v.ty()),
{
    let mut r: Vec<u32> = Vec::new();
    match v {
        Value::Bool(b) => {
            r.push(
                if b {
                    1
                } else {
                    0
                },
            );
        },
        Value::I32(n) => {
            r.push(
                if n < 0 {
                    (n as i64 + 0x1_0000_0000) as u32
                } else {
                    n as u32
                },
            );
        },
        Value::U32(n) => {
            r.push(n);
        },
        _ => {
            let xs = v.components().unwrap();
            let mut i: usize = 0;
            while i < xs.len()
                invariant
                    i <= xs@.len(),
                    r@ == bits_of(xs@).take(i as int),
                decreases xs@.len() - i,
            {
                r.push(xs[i].bits);
                assert(r@ =~= bits_of(xs@).take(i + 1));
                i += 1;
            }
            assert(r@ =~= bits_of(xs@));
        },
    }
    assert(r@ =~= words_of(v));
    r
}

fn value_from_words(ty: ValueType, w: &Vec<u32>) -> (r: Option<Value>)
    requires
        w@.len() == word_count(ty),
    ensures
        r == value_of_words(ty, w@),
{
    match ty {
        ValueType::Bool => Some(Value::Bool(w[0] != 0)),
        ValueType::I32 => {
            let x: u32 = w[0];
            Some(
                Value::I32(
                    if x >= 0x8000_0000 {
                        (x as i64 - 0x1_0000_0000) as i32
                    } else {
                        x as i32
                    },
                ),
            )
        },
        ValueType::U32 => Some(Value::U32(w[0])),
        ValueType::F32 => Some(Value::F32(Float { bits: w[0] })),
        ValueType::Vec2 => Some(Value::Vec2([Float { bits: w[0] }, Float { bits: w[1] }])),
        ValueType::Vec3 => Some(
            Value::Vec3([Float { bits: w[0] }, Float { bits: w[1] }, Float { bits: w[2] }]),
        ),
        ValueType::Vec4 => Some(
            Value::Vec4(
                [
                    Float { bits: w[0] },
                    Float { bits: w[1] },
                    Float { bits: w[2] },
                    Float { bits: w[3] },
                ],
            ),
        ),
        ValueType::Mat3 => Some(
            Value::Mat3(
                [
                    Float { bits: w[0] },
                    Float { bits: w[1] },
                    Float { bits: w[2] },
                    Float { bits: w[3] },
                    Float { bits: w[4] },
                    Float { bits: w[5] },
                    Float { bits: w[6] },
                    Float { bits: w[7] },
                    Float { bits: w[8] },
                ],
            ),
        ),
        ValueType::Mat4 => Some(
            Value::Mat4(
                [
                    Float { bits: w[0] },
                    Float { bits: w[1] },
                    Float { bits: w[2] },
                    Float { bits: w[3] },
                    Float { bits: w[4] },
                    Float { bits: w[5] },
                    Float { bits: w[6] },
                    Float { bits: w[7] },
                    Float { bits: w[8] },
                    Float { bits: w[9] },
                    Float { bits: w[10] },
                    Float { bits: w[11] },
                    Float { bits: w[12] },
                    Float { bits: w[13] },
                    Float { bits: w[14] },
                    Float { bits: w[15] },
                ],
            ),
        ),
        _ => None,
    }
}


// ---------------------------------------------------------------------------
// Laws of writing and reading

proof fn lemma_word_round_trip(b: Seq<u8>, at: int, w: u32)
    requires
        0 <= at,
        at + 4 <= b.len(),
    ensures
        get_word(put_word(b, at, w), at) == w,
{
    let r = put_word(b, at, w);
    assert(r[at] == (w % 256) as u8);
    assert(r[at + 1] == ((w / 256) % 256) as u8);
    assert(r[at + 2] == ((w / 65536) % 256) as u8);
    assert(r[at + 3] == (w / 16777216) as u8);
    assert(w == w % 256 + ((w / 256) % 256) * 256 + ((w / 65536) % 256) * 65536 + (w / 16777216)
        * 16777216);
}

proof fn lemma_word_elsewhere(b: Seq<u8>, at: int, w: u32, other: int)
    requires
        0 <= at,
        at + 4 <= b.len(),
        0 <= other,
        other + 4 <= b.len(),
        other + 4 <= at || at + 4 <= other,
    ensures
        get_word(put_word(b, at, w), other) == get_word(b, other),
{
}

proof fn lemma_places_apart(ty: ValueType, i: int, j: int)
    requires
        0 <= i < j < word_count(ty),
    ensures
        word_place(ty, i) + 4 <= word_place(ty, j),
{
}

proof fn lemma_words_elsewhere(
    b: Seq<u8>,
    start: int,
    ty: ValueType,
    w: Seq<u32>,
    n: int,
    other: int,
)
    requires
        ty.buffer_size() is Some,
        0 <= n <= word_count(ty),
        0 <= start,
        start + ty.buffer_size()->0 <= b.len(),
        0 <= other,
        other + 4 <= b.len(),
        forall|k: int|
            #![trigger word_place(ty, k)]
            0 <= k < n ==> other + 4 <= start + word_place(ty, k) || start + word_place(ty, k) + 4
                <= other,
    ensures
        with_words(b, start, ty, w, n).len() == b.len(),
        get_word(with_words(b, start, ty, w, n), other) == get_word(b, other),
    decreases n,
{
    if n > 0 {
        lemma_words_elsewhere(b, start, ty, w, n - 1, other);
        lemma_place_fits(ty, n - 1);
        assert(other + 4 <= start + word_place(ty, n - 1) || start + word_place(ty, n - 1) + 4
            <= other);
        lemma_word_elsewhere(
            with_words(b, start, ty, w, n - 1),
            start + word_place(ty, n - 1),
            w[n - 1],
            other,
        );
    }
}

proof fn lemma_words_len(b: Seq<u8>, start: int, ty: ValueType, w: Seq<u32>, n: int)
    requires
        ty.buffer_size() is Some,
        0 <= n <= word_count(ty),
        0 <= start,
        start + ty.buffer_size()->0 <= b.len(),
    ensures
        with_words(b, start, ty, w, n).len() == b.len(),
    decreases n,
{
    if n > 0 {
        lemma_words_len(b, start, ty, w, n - 1);
        lemma_place_fits(ty, n - 1);
    }
}

proof fn lemma_words_stored(
    b: Seq<u8>,
    start: int,
    ty: ValueType,
    w: Seq<u32>,
    n: int,
    k: int,
)
    requires
        ty.buffer_size() is Some,
        0 <= k < n <= word_count(ty),
        0 <= start,
        start + ty.buffer_size()->0 <= b.len(),
    ensures
        get_word(with_words(b, start, ty, w, n), start + word_place(ty, k)) == w[k],
    decreases n,
{
    let before = with_words(b, start, ty, w, n - 1);
    lemma_words_len(b, start, ty, w, n - 1);
    lemma_place_fits(ty, n - 1);
    lemma_place_fits(ty, k);
    if k == n - 1 {
        lemma_word_round_trip(before, start + word_place(ty, k), w[k]);
    } else {
        lemma_words_stored(b, start, ty, w, n - 1, k);
        lemma_places_apart(ty, k, n - 1);
        lemma_word_elsewhere(
            before,
            start + word_place(ty, n - 1),
            w[n - 1],
            start + word_place(ty, k),
        );
    }
}

/// The words a value is stored as give the value back.
pub proof fn words_give_the_value_back(v: Value)
    ensures
        words_of(v).len() == word_count(v.ty()),
        value_of_words(v.ty(), words_of(v)) == Some(v),
{
    match v {
        Value::Vec2(xs) => {
            let w = words_of(v);
            assert(value_of_words(v.ty(), w)->0->Vec2_0 =~= xs);
        },
        Value::Vec3(xs) => {
            let w = words_of(v);
            assert(value_of_words(v.ty(), w)->0->Vec3_0 =~= xs);
        },
        Value::Vec4(xs) => {
            let w = words_of(v);
            assert(value_of_words(v.ty(), w)->0->Vec4_0 =~= xs);
        },
        Value::Mat3(xs) => {
            let w = words_of(v);
            assert(value_of_words(v.ty(), w)->0->Mat3_0 =~= xs);
        },
        Value::Mat4(xs) => {
            let w = words_of(v);
            assert(value_of_words(v.ty(), w)->0->Mat4_0 =~= xs);
        },
        _ => {},
    }
}

/// A value that was written is the value that is read back.
pub proof fn written_value_reads_back(
    l: BufferLayoutView,
    bytes: Seq<u8>,
    name: Seq<char>,
    v: Value,
)
    requires
        well_laid(l),
        write_outcome(l, bytes.len(), name, v) is Ok,
    ensures
        read_of(l, write_of(l, bytes, name, v), name) == Some(v),
        write_of(l, bytes, name, v).len() == bytes.len(),
{
    let f = l.field(name)->0;
    lists::lemma_first_where(l.fields, field_named(name));
    let start = f.offset as int;
    let after = write_of(l, bytes, name, v);
    let w = words_of(v);
    words_give_the_value_back(v);
    lemma_words_len(bytes, start, f.ty, w, word_count(f.ty));
    assert forall|k: int| 0 <= k < word_count(f.ty) implies #[trigger] stored_words(
        after,
        start,
        f.ty,
    )[k] == w[k] by {
        lemma_words_stored(bytes, start, f.ty, w, word_count(f.ty), k);
    }
    assert(stored_words(after, start, f.ty) =~= w);
}

/// Writing one field changes what no other field reads.
pub proof fn writing_leaves_other_fields(
    l: BufferLayoutView,
    bytes: Seq<u8>,
    name: Seq<char>,
    other: Seq<char>,
    v: Value,
)
    requires
        well_laid(l),
        name != other,
    ensures
        read_of(l, write_of(l, bytes, name, v), other) == read_of(l, bytes, other),
{
    if write_outcome(l, bytes.len(), name, v) is Ok && l.field(other) is Some {
        let f = l.field(name)->0;
        let g = l.field(other)->0;
        lists::lemma_first_where(l.fields, field_named(name));
        lists::lemma_first_where(l.fields, field_named(other));
        let i = choose|i: int| 0 <= i < l.fields.len() && l.fields[i] == f;
        let j = choose|j: int| 0 <= j < l.fields.len() && l.fields[j] == g;
        assert(l.fields[i] == f && l.fields[j] == g);
        assert(i != j);
        let after = write_of(l, bytes, name, v);
        let w = words_of(v);
        lemma_words_len(bytes, f.offset as int, f.ty, w, word_count(f.ty));
        if bytes.len() >= g.offset + g.size {
            assert forall|k: int| 0 <= k < word_count(g.ty) implies #[trigger] stored_words(
                after,
                g.offset as int,
                g.ty,
            )[k] == stored_words(bytes, g.offset as int, g.ty)[k] by {
                lemma_place_fits(g.ty, k);
                let at = g.offset + word_place(g.ty, k);
                assert forall|m: int|
                    #![trigger word_place(f.ty, m)]
                    0 <= m < word_count(f.ty) implies at + 4 <= f.offset + word_place(f.ty, m)
                    || f.offset + word_place(f.ty, m) + 4 <= at by {
                    lemma_place_fits(f.ty, m);
                }
                lemma_words_elsewhere(
                    bytes,
                    f.offset as int,
                    f.ty,
                    w,
                    word_count(f.ty),
                    at,
                );
            }
            assert(stored_words(after, g.offset as int, g.ty) =~= stored_words(
                bytes,
                g.offset as int,
                g.ty,
            ));
        }
    }
}

// ---------------------------------------------------------------------------
// What a material asks for

/// A texture or sampler a material declares, and where it is bound.
#[derive(Debug, PartialEq)]
pub struct ResourceBinding {
    /// The variable's name.
    pub name: WxslIdent,
    /// The kind of handle.
    pub ty: ValueType,
    /// The `@binding` within the material's group.
    pub binding: u32,
}

/// What a [`ResourceBinding`] stands for.
#[verifier::ext_equal]
pub struct ResourceBindingView {
    /// The variable's name.
    pub name: Seq<char>,
    /// The kind of handle.
    pub ty: ValueType,
    /// The `@binding` within the material's group.
    pub binding: u32,
}

impl View for ResourceBinding {
    type V = ResourceBindingView;

    open spec fn view(&self) -> ResourceBindingView {
        ResourceBindingView {
            name: self.name@,
            ty: self.ty,
            binding: self.binding,
        }
    }
}

impl Clone for ResourceBinding {
    fn clone(&self) -> (r: Self)
        ensures
            r@ == self@,
    {
        ResourceBinding {
            name: self.name.clone(),
            ty: self.ty,
            binding: self.binding,
        }
    }
}

/// The uniform block a material asks the application to supply.
#[derive(Debug, PartialEq)]
pub struct UserBlock {
    /// The variable's name.
    pub name: WxslIdent,
    /// The name of the generated struct.
    pub struct_name: String,
    /// Its fields.
    pub layout: BufferLayout,
}

/// What a [`UserBlock`] stands for.
#[verifier::ext_equal]
pub struct UserBlockView {
    /// The variable's name.
    pub name: Seq<char>,
    /// The name of the generated struct.
    pub struct_name: Seq<char>,
    /// Its fields.
    pub layout: BufferLayoutView,
}

impl View for UserBlock {
    type V = UserBlockView;

    open spec fn view(&self) -> UserBlockView {
        UserBlockView {
            name: self.name@,
            struct_name: self.struct_name@,
            layout: self.layout@,
        }
    }
}

impl Clone for UserBlock {
    fn clone(&self) -> (r: Self)
        ensures
            r@ == self@,
    {
        UserBlock {
            name: self.name.clone(),
            struct_name: self.struct_name.clone(),
            layout: self.layout.clone(),
        }
    }
}

impl UserBlock {
    /// The struct of a block.
    pub fn struct_name_for(name: &WxslIdent) -> (r: String)
        ensures
            r@ == name@ + "_uniforms"@,
    {
        let mut r = name.as_str().to_owned();
        r.append("_uniforms");
        r
    }
}

/// A per-vertex attribute a material declares, and its three numbers.
#[derive(Debug, PartialEq)]
pub struct VertexAttributeBinding {
    /// The attribute, and the mesh stream that supplies it.
    pub name: WxslIdent,
    /// Its type.
    pub ty: ValueType,
    /// The `@location` in the vertex entry.
    pub location: u32,
    /// The vertex buffer slot; 0 is the base vertex.
    pub slot: u32,
    /// The `@location` in which it travels to the fragment stage.
    pub varying: u32,
}

/// What a [`VertexAttributeBinding`] stands for.
#[verifier::ext_equal]
pub struct VertexAttributeBindingView {
    /// The attribute, and the mesh stream that supplies it.
    pub name: Seq<char>,
    /// Its type.
    pub ty: ValueType,
    /// The `@location` in the vertex entry.
    pub location: u32,
    /// The vertex buffer slot; 0 is the base vertex.
    pub slot: u32,
    /// The `@location` in which it travels to the fragment stage.
    pub varying: u32,
}

impl View for VertexAttributeBinding {
    type V = VertexAttributeBindingView;

    open spec fn view(&self) -> VertexAttributeBindingView {
        VertexAttributeBindingView {
            name: self.name@,
            ty: self.ty,
            location: self.location,
            slot: self.slot,
            varying: self.varying,
        }
    }
}

impl Clone for VertexAttributeBinding {
    fn clone(&self) -> (r: Self)
        ensures
            r@ == self@,
    {
        VertexAttributeBinding {
            name: self.name.clone(),
            ty: self.ty,
            location: self.location,
            slot: self.slot,
            varying: self.varying,
        }
    }
}

/// An interpolant the vertex stage computes.
#[derive(Debug, PartialEq)]
pub struct VaryingBinding {
    /// Its name.
    pub name: WxslIdent,
    /// Its type.
    pub ty: ValueType,
    /// The `@location` it travels in.
    pub varying: u32,
}

/// What a [`VaryingBinding`] stands for.
#[verifier::ext_equal]
pub struct VaryingBindingView {
    /// Its name.
    pub name: Seq<char>,
    /// Its type.
    pub ty: ValueType,
    /// The `@location` it travels in.
    pub varying: u32,
}

impl View for VaryingBinding {
    type V = VaryingBindingView;

    open spec fn view(&self) -> VaryingBindingView {
        VaryingBindingView {
            name: self.name@,
            ty: self.ty,
            varying: self.varying,
        }
    }
}

impl Clone for VaryingBinding {
    fn clone(&self) -> (r: Self)
        ensures
            r@ == self@,
    {
        VaryingBinding {
            name: self.name.clone(),
            ty: self.ty,
            varying: self.varying,
        }
    }
}

/// What a material asks of the geometry it is drawn on.
#[derive(Debug, PartialEq)]
pub struct GeometryInterface {
    vertex: Vec<VertexAttributeBinding>,
    instance: BufferLayout,
    computed: Vec<VaryingBinding>,
    instance_index_location: Option<u32>,
}

/// What a [`GeometryInterface`] stands for.
#[verifier::ext_equal]
pub struct GeometryInterfaceView {
    /// The per-vertex attributes, in location order.
    pub vertex: Seq<VertexAttributeBindingView>,
    /// One row of the per-instance attributes.
    pub instance: BufferLayoutView,
    /// The interpolants, in location order.
    pub computed: Seq<VaryingBindingView>,
    /// Where the instance index travels, if it does.
    pub instance_index_location: Option<u32>,
}

impl View for GeometryInterface {
    type V = GeometryInterfaceView;

    closed spec fn view(&self) -> GeometryInterfaceView {
        GeometryInterfaceView {
            vertex: text::seq_of(self.vertex@),
            instance: self.instance@,
            computed: text::seq_of(self.computed@),
            instance_index_location: self.instance_index_location,
        }
    }
}

/// The declarations in name order, each name once.
pub open spec fn named_order(entries: Seq<Entry>) -> Seq<Entry> {
    dedup_names(sorting::sorted(entries, by_name()))
}

/// The location of the first attribute that is not the shading basis or the
/// instance index.
pub open spec fn first_extra(has_instance: bool) -> int {
    abi::VERTEX_OUT_COUNT + (if has_instance {
        1int
    } else {
        0int
    })
}

/// The numbers a material's declarations get: the instance index first, then
/// the per-vertex attributes, then the interpolants, each by name.
pub open spec fn geometry_of(
    vertex: Seq<Entry>,
    instance: Seq<Entry>,
    computed: Seq<Entry>,
) -> GeometryInterfaceView {
    let row = laid_out(storage_order(Seq::empty(), instance), 0);
    let travels = row.fields.len() > 0;
    let extra = first_extra(travels);
    let vs = named_order(vertex);
    let cs = named_order(computed);
    GeometryInterfaceView {
        vertex: Seq::new(
            vs.len(),
            |i: int|
                VertexAttributeBindingView {
                    name: vs[i].0,
                    ty: vs[i].1,
                    location: (abi::VERTEX_IN_COUNT + i) as u32,
                    slot: (1 + i) as u32,
                    varying: (extra + i) as u32,
                },
        ),
        instance: row,
        computed: Seq::new(
            cs.len(),
            |i: int|
                VaryingBindingView {
                    name: cs[i].0,
                    ty: cs[i].1,
                    varying: (extra + vs.len() + i) as u32,
                },
        ),
        instance_index_location: if travels {
            Some(abi::VERTEX_OUT_COUNT as u32)
        } else {
            None
        },
    }
}

/// The inter-stage locations a material spends.
pub open spec fn varyings_spent(g: GeometryInterfaceView) -> int {
    abi::VERTEX_OUT_COUNT + (if g.instance_index_location is Some {
        1int
    } else {
        0int
    }) + g.vertex.len() + g.computed.len()
}

/// Whether the declarations can be numbered: the instance row can be laid out,
/// and 32 bits count the locations.
pub open spec fn geometry_fits(
    vertex: Seq<Entry>,
    instance: Seq<Entry>,
    computed: Seq<Entry>,
) -> bool {
    &&& layout_fits(storage_order(Seq::empty(), instance), 0)
    &&& varyings_spent(geometry_of(vertex, instance, computed)) <= u32::MAX
}

/// Being the attribute of this name.
pub open spec fn attribute_named(name: Seq<char>) -> spec_fn(VertexAttributeBindingView) -> bool {
    |a: VertexAttributeBindingView| a.name == name
}

/// Being the interpolant of this name.
pub open spec fn varying_named(name: Seq<char>) -> spec_fn(VaryingBindingView) -> bool {
    |v: VaryingBindingView| v.name == name
}

/// `name:type@location;` for the first `n` attributes.
pub open spec fn attributes_signature(
    out: Seq<char>,
    s: Seq<VertexAttributeBindingView>,
    n: int,
) -> Seq<char>
    decreases n,
{
    if n <= 0 {
        out
    } else {
        attributes_signature(out, s, n - 1) + s[n - 1].name + ":"@ + s[n - 1].ty.wxsl_type()@ + "@"@
            + text::decimal(s[n - 1].location as nat) + ";"@
    }
}

/// `name:type@location;` for the first `n` interpolants.
pub open spec fn varyings_signature(out: Seq<char>, s: Seq<VaryingBindingView>, n: int) -> Seq<char>
    decreases n,
{
    if n <= 0 {
        out
    } else {
        varyings_signature(out, s, n - 1) + s[n - 1].name + ":"@ + s[n - 1].ty.wxsl_type()@ + "@"@
            + text::decimal(s[n - 1].varying as nat) + ";"@
    }
}

/// One line that lists what is asked of the geometry, appended to `out`.
pub open spec fn geometry_signature(out: Seq<char>, g: GeometryInterfaceView) -> Seq<char> {
    varyings_signature(
        layout_signature(
            attributes_signature(out, g.vertex, g.vertex.len() as int) + "/"@,
            g.instance,
        ) + "/"@,
        g.computed,
        g.computed.len() as int,
    )
}

pub(crate) proof fn lemma_by_name_is_strict()
    ensures
        sorting::strict_order(by_name()),
{
    let less = by_name();
    assert forall|a: Entry, b: Entry| #[trigger] less(a, b) implies !less(b, a) by {
        text::text_less_total(a.0, b.0);
    }
    assert forall|a: Entry, b: Entry, c: Entry|
        !(#[trigger] less(b, a)) && !(#[trigger] less(c, b)) implies !less(c, a) by {
        text::text_less_total(a.0, b.0);
        text::text_less_total(b.0, c.0);
        if text::text_less(c.0, a.0) && text::text_less(a.0, b.0) {
            text::text_less_transitive(c.0, a.0, b.0);
        }
    }
}

impl Clone for GeometryInterface {
    fn clone(&self) -> (r: Self)
        ensures
            r@ == self@,
    {
        GeometryInterface {
            vertex: clone_vec(&self.vertex),
            instance: self.instance.clone(),
            computed: clone_vec(&self.computed),
            instance_index_location: self.instance_index_location,
        }
    }
}

impl GeometryInterface {
    /// Whether the declared attributes and interpolants can be numbered.
    pub(crate) fn can_number(
        vertex: Vec<(WxslIdent, ValueType)>,
        instance: Vec<(WxslIdent, ValueType)>,
        computed: Vec<(WxslIdent, ValueType)>,
    ) -> (r: bool)
        ensures
            r == geometry_fits(
                text::seq_of(vertex@),
                text::seq_of(instance@),
                text::seq_of(computed@),
            ),
    {
        let none: Vec<(WxslIdent, ValueType)> = Vec::new();
        assert(text::seq_of(none@) =~= Seq::<Entry>::empty());
        let ghost i = text::seq_of(instance@);
        let tail = sort_by_alignment(keep_last_of_each(&drop_declared(&none, &instance)));
        assert(Seq::<Entry>::empty() + text::seq_of(tail@) =~= text::seq_of(tail@));
        let entries = drop_repeats(&tail);
        if !can_lay_out(&entries, 0) {
            return false;
        }
        let row = lay_out(&entries, 0);
        let index: u128 = if row.is_empty() {
            0
        } else {
            1
        };
        let vertex = drop_repeats(&sort_by_name(vertex));
        let computed = drop_repeats(&sort_by_name(computed));
        assert(text::seq_of(vertex@).len() == vertex@.len());
        assert(text::seq_of(computed@).len() == computed@.len());
        abi::VERTEX_OUT_COUNT as u128 + index + vertex.len() as u128 + computed.len() as u128
            <= u32::MAX as u128
    }

    /// Number the declared attributes and interpolants.
    pub fn new(
        vertex: Vec<(WxslIdent, ValueType)>,
        instance: Vec<(WxslIdent, ValueType)>,
        computed: Vec<(WxslIdent, ValueType)>,
    ) -> (r: Self)
        requires
            geometry_fits(
                text::seq_of(vertex@),
                text::seq_of(instance@),
                text::seq_of(computed@),
            ),
        ensures
            r@ == geometry_of(text::seq_of(vertex@), text::seq_of(instance@), text::seq_of(computed@)),
    {
        let ghost v = text::seq_of(vertex@);
        let ghost c = text::seq_of(computed@);
        let ghost n = text::seq_of(instance@);
        let none: Vec<(WxslIdent, ValueType)> = Vec::new();
        assert(text::seq_of(none@) =~= Seq::<Entry>::empty());
        let row = BufferLayout::storage(none, instance);
        let travels = !row.is_empty();
        let base: u32 = abi::VERTEX_OUT_COUNT as u32;
        let location: Option<u32> = if travels {
            Some(base)
        } else {
            None
        };
        let extra: u32 = if travels {
            base + 1
        } else {
            base
        };
        let declared = drop_repeats(&sort_by_name(vertex));
        let ghost vs = named_order(v);
        assert(text::seq_of(declared@).len() == declared@.len());
        let mut attributes: Vec<VertexAttributeBinding> = Vec::new();
        let ghost wanted = geometry_of(v, n, c);
        let mut i: usize = 0;
        while i < declared.len()
            invariant
                i <= declared@.len() == vs.len(),
                extra + vs.len() <= u32::MAX,
                vs == text::seq_of(declared@),
                vs == named_order(v),
                extra == first_extra(laid_out(storage_order(Seq::empty(), n), 0).fields.len() > 0),
                extra >= abi::VERTEX_OUT_COUNT,
                wanted == geometry_of(v, n, c),
                attributes@.len() == i,
                forall|j: int| 0 <= j < i ==> (#[trigger] attributes@[j])@ == wanted.vertex[j],
            decreases vs.len() - i,
        {
            assert(vs[i as int] == declared@[i as int]@);
            attributes.push(
                VertexAttributeBinding {
                    name: declared[i].0.clone(),
                    ty: declared[i].1,
                    location: abi::VERTEX_IN_COUNT as u32 + i as u32,
                    slot: 1 + i as u32,
                    varying: extra + i as u32,
                },
            );
            i += 1;
        }
        assert(text::seq_of(attributes@) =~= wanted.vertex);
        let declared = drop_repeats(&sort_by_name(computed));
        let ghost cs = named_order(c);
        assert(text::seq_of(declared@).len() == declared@.len());
        let first: u32 = extra + attributes.len() as u32;
        let mut varyings: Vec<VaryingBinding> = Vec::new();
        let mut i: usize = 0;
        while i < declared.len()
            invariant
                i <= declared@.len() == cs.len(),
                first + cs.len() <= u32::MAX,
                cs == text::seq_of(declared@),
                cs == named_order(c),
                first == first_extra(laid_out(storage_order(Seq::empty(), n), 0).fields.len() > 0)
                    + named_order(v).len(),
                wanted == geometry_of(v, n, c),
                varyings@.len() == i,
                forall|j: int| 0 <= j < i ==> (#[trigger] varyings@[j])@ == wanted.computed[j],
            decreases cs.len() - i,
        {
            assert(cs[i as int] == declared@[i as int]@);
            varyings.push(
                VaryingBinding {
                    name: declared[i].0.clone(),
                    ty: declared[i].1,
                    varying: first + i as u32,
                },
            );
            i += 1;
        }
        assert(text::seq_of(varyings@) =~= wanted.computed);
        GeometryInterface {
            vertex: attributes,
            instance: row,
            computed: varyings,
            instance_index_location: location,
        }
    }

    /// The interpolants, in location order.
    pub fn computed(&self) -> (r: &Vec<VaryingBinding>)
        ensures
            text::seq_of(r@) == self@.computed,
    {
        &self.computed
    }

    /// The interpolant of a name.
    pub fn computed_varying(&self, name: &str) -> (r: Option<&VaryingBinding>)
        ensures
            text::opt_of(r) == lists::first_where(self@.computed, varying_named(name@)),
    {
        let ghost s = self@.computed;
        let ghost p = varying_named(name@);
        let mut i: usize = 0;
        assert(s.skip(0) =~= s);
        while i < self.computed.len()
            invariant
                i <= s.len() == self.computed@.len(),
                s == text::seq_of(self.computed@),
                p == varying_named(name@),
                lists::first_where(s, p) == lists::first_where(s.skip(i as int), p),
            decreases s.len() - i,
        {
            proof {
                lists::lemma_first_where_skip(s, p, i as int);
            }
            if same_text(self.computed[i].name.as_str(), name) {
                return Some(&self.computed[i]);
            }
            i += 1;
        }
        None
    }

    /// The per-vertex attributes, in location order.
    pub fn vertex(&self) -> (r: &Vec<VertexAttributeBinding>)
        ensures
            text::seq_of(r@) == self@.vertex,
    {
        &self.vertex
    }

    /// The per-vertex attribute of a name.
    pub fn vertex_attribute(&self, name: &str) -> (r: Option<&VertexAttributeBinding>)
        ensures
            text::opt_of(r) == lists::first_where(self@.vertex, attribute_named(name@)),
    {
        let ghost s = self@.vertex;
        let ghost p = attribute_named(name@);
        let mut i: usize = 0;
        assert(s.skip(0) =~= s);
        while i < self.vertex.len()
            invariant
                i <= s.len() == self.vertex@.len(),
                s == text::seq_of(self.vertex@),
                p == attribute_named(name@),
                lists::first_where(s, p) == lists::first_where(s.skip(i as int), p),
            decreases s.len() - i,
        {
            proof {
                lists::lemma_first_where_skip(s, p, i as int);
            }
            if same_text(self.vertex[i].name.as_str(), name) {
                return Some(&self.vertex[i]);
            }
            i += 1;
        }
        None
    }

    /// One row of the per-instance attributes.
    pub fn instance(&self) -> (r: &BufferLayout)
        ensures
            r@ == self@.instance,
    {
        &self.instance
    }

    /// The per-instance attributes, in layout order.
    pub fn instance_attributes(&self) -> (r: &Vec<FieldLayout>)
        ensures
            text::seq_of(r@) == self@.instance.fields,
    {
        self.instance.fields()
    }

    /// Where the instance index travels, if it does.
    pub fn instance_index_location(&self) -> (r: Option<u32>)
        ensures
            r == self@.instance_index_location,
    {
        self.instance_index_location
    }

    /// Whether nothing is asked of the geometry.
    pub fn is_empty(&self) -> (r: bool)
        ensures
            r == (self@.vertex.len() == 0 && self@.instance.fields.len() == 0
                && self@.computed.len() == 0),
    {
        self.vertex.len() == 0 && self.instance.is_empty() && self.computed.len() == 0
    }

    /// The inter-stage locations that are spent.
    pub fn varyings_used(&self) -> (r: usize)
        requires
            varyings_spent(self@) <= usize::MAX,
        ensures
            r == varyings_spent(self@),
    {
        let index: usize = if self.instance_index_location.is_some() {
            1
        } else {
            0
        };
        abi::VERTEX_OUT_COUNT + index + self.vertex.len() + self.computed.len()
    }

    /// Add an interpolant at the next location; refused, with nothing changed,
    /// where every location is spent.
    pub fn add_computed(&mut self, name: WxslIdent, ty: ValueType) -> (r: bool)
        requires
            varyings_spent(old(self)@) <= usize::MAX,
        ensures
            r == (varyings_spent(old(self)@) < abi::MAX_VARYING_LOCATIONS),
            r ==> final(self)@ == (GeometryInterfaceView {
                computed: old(self)@.computed.push(
                    VaryingBindingView {
                        name: name@,
                        ty,
                        varying: varyings_spent(old(self)@) as u32,
                    },
                ),
                ..old(self)@
            }),
            !r ==> final(self)@ == old(self)@,
    {
        let used: usize = self.varyings_used();
        if used >= abi::MAX_VARYING_LOCATIONS {
            return false;
        }
        let ghost before = self.computed@;
        self.computed.push(VaryingBinding { name, ty, varying: used as u32 });
        assert(text::seq_of(self.computed@) =~= text::seq_of(before).push(
            VaryingBindingView { name: name@, ty, varying: used as u32 },
        ));
        true
    }

    /// One line that lists what is asked of the geometry.
    pub fn signature(&self) -> (r: String)
        ensures
            r@ == geometry_signature(Seq::empty(), self@),
    {
        let mut out = String::new();
        self.push_signature(&mut out);
        out
    }

    /// Append the line that lists what is asked of the geometry.
    pub fn push_signature(&self, out: &mut String)
        ensures
            final(out)@ == geometry_signature(old(out)@, self@),
    {
        let ghost head = out@;
        let mut i: usize = 0;
        while i < self.vertex.len()
            invariant
                i <= self@.vertex.len() == self.vertex@.len(),
                text::seq_of(self.vertex@) == self@.vertex,
                out@ == attributes_signature(head, self@.vertex, i as int),
            decreases self.vertex@.len() - i,
        {
            assert(self@.vertex[i as int] == self.vertex@[i as int]@);
            out.append(self.vertex[i].name.as_str());
            out.append(":");
            out.append(self.vertex[i].ty.wxsl_type());
            out.append("@");
            push_number(out, self.vertex[i].location as u64);
            out.append(";");
            i += 1;
        }
        out.append("/");
        self.instance.push_signature(out);
        out.append("/");
        let ghost middle = out@;
        let mut i: usize = 0;
        while i < self.computed.len()
            invariant
                i <= self@.computed.len() == self.computed@.len(),
                text::seq_of(self.computed@) == self@.computed,
                out@ == varyings_signature(middle, self@.computed, i as int),
            decreases self.computed@.len() - i,
        {
            assert(self@.computed[i as int] == self.computed@[i as int]@);
            out.append(self.computed[i].name.as_str());
            out.append(":");
            out.append(self.computed[i].ty.wxsl_type());
            out.append("@");
            push_number(out, self.computed[i].varying as u64);
            out.append(";");
            i += 1;
        }
    }
}

impl Default for GeometryInterface {
    fn default() -> (r: Self)
        ensures
            r@ == geometry_of(Seq::empty(), Seq::empty(), Seq::empty()),
    {
        let a: Vec<(WxslIdent, ValueType)> = Vec::new();
        let b: Vec<(WxslIdent, ValueType)> = Vec::new();
        let c: Vec<(WxslIdent, ValueType)> = Vec::new();
        assert(text::seq_of(a@) =~= Seq::<Entry>::empty());
        proof {
            asking_nothing_costs_nothing();
            lemma_nothing_fits();
        }
        GeometryInterface::new(a, b, c)
    }
}

proof fn lemma_nothing_fits()
    ensures
        layout_fits(storage_order(Seq::empty(), Seq::empty()), 0),
{
    let e = Seq::<Entry>::empty();
    assert(not_in_prefix(e, e, 0) =~= e);
    assert(last_of_each(e, 0) =~= e);
    assert(e + e =~= e);
}

/// Asking nothing of the geometry spends nothing beyond the shading basis.
pub proof fn asking_nothing_costs_nothing()
    ensures
        geometry_of(Seq::empty(), Seq::empty(), Seq::empty()) == (GeometryInterfaceView {
            vertex: Seq::empty(),
            instance: empty_layout(),
            computed: Seq::empty(),
            instance_index_location: None,
        }),
        varyings_spent(geometry_of(Seq::empty(), Seq::empty(), Seq::empty()))
            == abi::VERTEX_OUT_COUNT,
{
    let e = Seq::<Entry>::empty();
    assert(not_in_prefix(e, e, 0) =~= e);
    assert(last_of_each(e, 0) =~= e);
    assert(e + e =~= e);
    assert(fields_of(e) =~= Seq::<FieldLayoutView>::empty());
    assert(geometry_of(e, e, e) =~= (GeometryInterfaceView {
        vertex: Seq::empty(),
        instance: empty_layout(),
        computed: Seq::empty(),
        instance_index_location: None,
    }));
}

/// Declaring interpolants moves no per-vertex attribute, no instance field and
/// not the instance index; they come after everything else.
pub proof fn interpolants_move_nothing(
    vertex: Seq<Entry>,
    instance: Seq<Entry>,
    computed: Seq<Entry>,
)
    ensures
        geometry_of(vertex, instance, computed).vertex == geometry_of(
            vertex,
            instance,
            Seq::empty(),
        ).vertex,
        geometry_of(vertex, instance, computed).instance == geometry_of(
            vertex,
            instance,
            Seq::empty(),
        ).instance,
        geometry_of(vertex, instance, computed).instance_index_location == geometry_of(
            vertex,
            instance,
            Seq::empty(),
        ).instance_index_location,
        varyings_spent(geometry_of(vertex, instance, computed)) == varyings_spent(
            geometry_of(vertex, instance, Seq::empty()),
        ) + named_order(computed).len(),
{
    assert(geometry_of(vertex, instance, Seq::empty()).computed.len() == 0);
}

/// The instance index travels once, however many attributes an instance has,
/// and where it travels does not depend on what else is declared.
pub proof fn instance_index_travels_once(
    vertex: Seq<Entry>,
    a: Seq<Entry>,
    b: Seq<Entry>,
    computed: Seq<Entry>,
)
    requires
        geometry_of(vertex, a, computed).instance.fields.len() > 0,
        geometry_of(vertex, b, computed).instance.fields.len() > 0,
    ensures
        varyings_spent(geometry_of(vertex, a, computed)) == varyings_spent(
            geometry_of(vertex, b, computed),
        ),
        geometry_of(vertex, a, computed).instance_index_location == Some(
            abi::VERTEX_OUT_COUNT as u32,
        ),
{
}

/// Everything that has to be bound before a material can draw.
#[derive(Debug, PartialEq)]
pub struct MaterialInterface {
    /// The material's own uniform parameters.
    pub params: BufferLayout,
    /// The value each parameter starts from.
    pub defaults: TextMap<Value>,
    /// Its textures and samplers, in name order.
    pub resources: Vec<ResourceBinding>,
    /// The block the application supplies.
    pub user: Option<UserBlock>,
    /// What it asks of the geometry.
    pub geometry: GeometryInterface,
}

/// What a [`MaterialInterface`] stands for.
#[verifier::ext_equal]
pub struct MaterialInterfaceView {
    /// The material's own uniform parameters.
    pub params: BufferLayoutView,
    /// The value each parameter starts from.
    pub defaults: Map<Seq<char>, Value>,
    /// Its textures and samplers, in name order.
    pub resources: Seq<ResourceBindingView>,
    /// The block the application supplies.
    pub user: Option<UserBlockView>,
    /// What it asks of the geometry.
    pub geometry: GeometryInterfaceView,
}

impl View for MaterialInterface {
    type V = MaterialInterfaceView;

    open spec fn view(&self) -> MaterialInterfaceView {
        MaterialInterfaceView {
            params: self.params@,
            defaults: self.defaults@,
            resources: text::seq_of(self.resources@),
            user: text::opt_of(self.user),
            geometry: self.geometry@,
        }
    }
}

impl Clone for MaterialInterface {
    fn clone(&self) -> (r: Self)
        ensures
            r@ == self@,
    {
        MaterialInterface {
            params: self.params.clone(),
            defaults: self.defaults.copy(),
            resources: clone_vec(&self.resources),
            user: copy_opt(&self.user),
            geometry: self.geometry.clone(),
        }
    }
}

/// A material that asks for nothing.
pub open spec fn bare_interface() -> MaterialInterfaceView {
    MaterialInterfaceView {
        params: empty_layout(),
        defaults: Map::empty(),
        resources: Seq::empty(),
        user: None,
        geometry: geometry_of(Seq::empty(), Seq::empty(), Seq::empty()),
    }
}

impl Default for MaterialInterface {
    fn default() -> (r: Self)
        ensures
            r@ == bare_interface(),
    {
        let r = MaterialInterface {
            params: BufferLayout::default(),
            defaults: TextMap::new(),
            resources: Vec::new(),
            user: None,
            geometry: GeometryInterface::default(),
        };
        assert(r@ =~= bare_interface());
        r
    }
}

/// Being the resource of this name.
pub open spec fn resource_named(name: Seq<char>) -> spec_fn(ResourceBindingView) -> bool {
    |b: ResourceBindingView| b.name == name
}

/// `name:type@binding;` for the first `n` resources.
pub open spec fn resources_signature(out: Seq<char>, s: Seq<ResourceBindingView>, n: int) -> Seq<
    char,
>
    decreases n,
{
    if n <= 0 {
        out
    } else {
        resources_signature(out, s, n - 1) + s[n - 1].name + ":"@ + s[n - 1].ty.wxsl_type()@ + "@"@
            + text::decimal(s[n - 1].binding as nat) + ";"@
    }
}

/// One line that lists what a material asks for; no value occurs in it.
pub open spec fn interface_signature(m: MaterialInterfaceView) -> Seq<char> {
    let params = layout_signature(Seq::<char>::empty() + "params["@, m.params) + "]"@;
    let resources = resources_signature(
        params + "res["@,
        m.resources,
        m.resources.len() as int,
    ) + "]"@;
    let user = match m.user {
        Some(block) => layout_signature(resources + "user["@ + block.name + ":"@, block.layout)
            + "]"@,
        None => resources,
    };
    if m.geometry.vertex.len() == 0 && m.geometry.instance.fields.len() == 0
        && m.geometry.computed.len() == 0 {
        user
    } else {
        geometry_signature(user + "geom["@, m.geometry) + "]"@
    }
}

/// The signature depends on the shape alone, never on a starting value.
pub proof fn signature_ignores_values(
    m: MaterialInterfaceView,
    defaults: Map<Seq<char>, Value>,
)
    ensures
        interface_signature(MaterialInterfaceView { defaults, ..m }) == interface_signature(m),
{
}

impl MaterialInterface {
    /// Whether the material's own group holds nothing.
    pub fn material_group_is_empty(&self) -> (r: bool)
        ensures
            r == (self@.params.fields.len() == 0 && self@.resources.len() == 0),
    {
        self.params.is_empty() && self.resources.len() == 0
    }

    /// The resource of a name.
    pub fn resource(&self, name: &str) -> (r: Option<&ResourceBinding>)
        ensures
            text::opt_of(r) == lists::first_where(self@.resources, resource_named(name@)),
    {
        let ghost s = self@.resources;
        let ghost p = resource_named(name@);
        let mut i: usize = 0;
        assert(s.skip(0) =~= s);
        while i < self.resources.len()
            invariant
                i <= s.len() == self.resources@.len(),
                s == text::seq_of(self.resources@),
                p == resource_named(name@),
                lists::first_where(s, p) == lists::first_where(s.skip(i as int), p),
            decreases s.len() - i,
        {
            proof {
                lists::lemma_first_where_skip(s, p, i as int);
            }
            if same_text(self.resources[i].name.as_str(), name) {
                return Some(&self.resources[i]);
            }
            i += 1;
        }
        None
    }

    /// One line that lists what a material asks for.
    pub fn signature(&self) -> (r: String)
        ensures
            r@ == interface_signature(self@),
    {
        let mut out = String::new();
        out.append("params[");
        self.params.push_signature(&mut out);
        out.append("]");
        out.append("res[");
        let ghost head = out@;
        let mut i: usize = 0;
        while i < self.resources.len()
            invariant
                i <= self@.resources.len() == self.resources@.len(),
                text::seq_of(self.resources@) == self@.resources,
                out@ == resources_signature(head, self@.resources, i as int),
            decreases self.resources@.len() - i,
        {
            assert(self@.resources[i as int] == self.resources@[i as int]@);
            out.append(self.resources[i].name.as_str());
            out.append(":");
            out.append(self.resources[i].ty.wxsl_type());
            out.append("@");
            push_number(&mut out, self.resources[i].binding as u64);
            out.append(";");
            i += 1;
        }
        out.append("]");
        match &self.user {
            Some(user) => {
                out.append("user[");
                out.append(user.name.as_str());
                out.append(":");
                user.layout.push_signature(&mut out);
                out.append("]");
            },
            None => {},
        }
        if !self.geometry.is_empty() {
            out.append("geom[");
            self.geometry.push_signature(&mut out);
            out.append("]");
        }
        out
    }
}

} // verus!
