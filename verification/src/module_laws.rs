//! What the source of a compiled module says.

use vstd::prelude::*;

use crate::abi;
use crate::abi::StageOutput;
use crate::assemble;
use crate::assemble::PartitionsView;
use crate::codegen::CodegenOptionsView;
use crate::expr::Imports;
use crate::lists;
use crate::macros::MacroValue;
use crate::partition::PartitionView;
use crate::resources;
use crate::resources::{
    BufferLayoutView, FieldLayoutView, GeometryInterfaceView, MaterialInterfaceView,
    ResourceBindingView, VaryingBindingView, VertexAttributeBindingView,
};
use crate::text;
use crate::textmap;
use crate::value::ValueType;

verus! {

// ---------------------------------------------------------------------------
// Lines

/// A field of a struct.
pub open spec fn field_line(name: Seq<char>, ty: Seq<char>) -> Seq<char> {
    "    "@ + name + ": "@ + ty + ",\n"@
}

/// A field that travels at a location.
pub open spec fn located_line(location: nat, name: Seq<char>, ty: Seq<char>) -> Seq<char> {
    "    @location("@ + text::decimal(location) + ") "@ + name + ": "@ + ty + ",\n"@
}

/// The variable of a texture or sampler, in the material's group.
pub open spec fn variable_line(r: ResourceBindingView) -> Seq<char> {
    "@group("@ + text::decimal(1) + ") @binding("@ + text::decimal(r.binding as nat) + ") var "@
        + r.name + ": "@ + r.ty.wxsl_type()@ + ";\n"@
}

/// An attribute taken from what travelled under its name.
pub open spec fn unpacked_line(name: Seq<char>) -> Seq<char> {
    "    "@ + "attrs"@ + "."@ + name + " = extra."@ + name + ";\n"@
}

/// Something handed on under its name.
pub open spec fn handed_line(name: Seq<char>, from: Seq<char>) -> Seq<char> {
    "    out."@ + name + from + name + ";\n"@
}

/// An interpolant set to what its own function computes.
pub open spec fn computed_line(name: Seq<char>) -> Seq<char> {
    "    out."@ + name + " = "@ + "wxsl_varying_"@ + name + "("@ + "vtx"@ + ", "@ + "attrs"@
        + ");\n"@
}

/// A field of the surface set to what its input reads.
pub open spec fn surface_line(read: (Seq<char>, Seq<char>)) -> Seq<char> {
    "    surface."@ + read.0 + " = "@ + read.1 + ";\n"@
}

/// How a value is held in a buffer: a flag as a number.
pub open spec fn held_type(ty: ValueType) -> Seq<char> {
    if ty == ValueType::Bool {
        "u32"@
    } else {
        ty.wxsl_type()@
    }
}

/// The lines of a list, one for each.
pub open spec fn attribute_fields_lines(s: Seq<VertexAttributeBindingView>) -> Seq<Seq<char>> {
    Seq::new(s.len(), |i: int| field_line(s[i].name, s[i].ty.wxsl_type()@))
}

/// The lines of a list, one for each.
pub open spec fn varying_fields_lines(s: Seq<VaryingBindingView>) -> Seq<Seq<char>> {
    Seq::new(s.len(), |i: int| field_line(s[i].name, s[i].ty.wxsl_type()@))
}

/// The lines of a list, one for each.
pub open spec fn resources_lines(s: Seq<ResourceBindingView>) -> Seq<Seq<char>> {
    Seq::new(s.len(), |i: int| variable_line(s[i]))
}

/// The lines of a list, one for each.
pub open spec fn travelling_attributes_lines(s: Seq<VertexAttributeBindingView>) -> Seq<Seq<char>> {
    Seq::new(s.len(), |i: int| located_line(s[i].varying as nat, s[i].name, s[i].ty.wxsl_type()@))
}

/// The lines of a list, one for each.
pub open spec fn travelling_varyings_lines(s: Seq<VaryingBindingView>) -> Seq<Seq<char>> {
    Seq::new(s.len(), |i: int| located_line(s[i].varying as nat, s[i].name, s[i].ty.wxsl_type()@))
}

/// The lines of a list, one for each.
pub open spec fn arriving_lines(s: Seq<VertexAttributeBindingView>) -> Seq<Seq<char>> {
    Seq::new(s.len(), |i: int| located_line(s[i].location as nat, s[i].name, s[i].ty.wxsl_type()@))
}

/// The lines of a list, one for each.
pub open spec fn attributes_copied_lines(s: Seq<VertexAttributeBindingView>) -> Seq<Seq<char>> {
    Seq::new(s.len(), |i: int| unpacked_line(s[i].name))
}

/// The lines of a list, one for each.
pub open spec fn varyings_copied_lines(s: Seq<VaryingBindingView>) -> Seq<Seq<char>> {
    Seq::new(s.len(), |i: int| unpacked_line(s[i].name))
}

/// The lines of a list, one for each.
pub open spec fn attributes_handed_lines(s: Seq<VertexAttributeBindingView>) -> Seq<Seq<char>> {
    Seq::new(s.len(), |i: int| handed_line(s[i].name, " = extra."@))
}

/// The lines of a list, one for each.
pub open spec fn varyings_computed_lines(s: Seq<(Seq<char>, PartitionView)>) -> Seq<Seq<char>> {
    Seq::new(s.len(), |i: int| computed_line(s[i].0))
}

/// The lines of a list, one for each.
pub open spec fn surface_set_lines(s: Seq<(Seq<char>, Seq<char>)>) -> Seq<Seq<char>> {
    Seq::new(s.len(), |i: int| surface_line(s[i]))
}

/// The lines of a list, one for each.
pub open spec fn struct_fields_lines(s: Seq<FieldLayoutView>) -> Seq<Seq<char>> {
    Seq::new(s.len(), |i: int| field_line(s[i].name, held_type(s[i].ty)))
}

proof fn lemma_attribute_fields(out: Seq<char>, s: Seq<VertexAttributeBindingView>, n: int)
    requires
        0 <= n <= s.len(),
    ensures
        assemble::attribute_fields(out, s, n) == out + text::flat(attribute_fields_lines(s).take(n)),
    decreases n,
{
    broadcast use text::lemma_assoc;

    let lines = attribute_fields_lines(s);
    if n > 0 {
        lemma_attribute_fields(out, s, n - 1);
        assert(lines.take(n) =~= lines.take(n - 1).push(lines[n - 1]));
        text::lemma_flat_push(lines.take(n - 1), lines[n - 1]);
        let i = n - 1;
        assert(assemble::attribute_fields(out, s, n) == assemble::attribute_fields(out, s, n - 1) + field_line(s[n - 1].name, s[n - 1].ty.wxsl_type()@));
    } else {
        assert(lines.take(0) =~= Seq::<Seq<char>>::empty());
        assert(out + text::flat(lines.take(0)) =~= out);
    }
}

proof fn lemma_varying_fields(out: Seq<char>, s: Seq<VaryingBindingView>, n: int)
    requires
        0 <= n <= s.len(),
    ensures
        assemble::varying_fields(out, s, n) == out + text::flat(varying_fields_lines(s).take(n)),
    decreases n,
{
    broadcast use text::lemma_assoc;

    let lines = varying_fields_lines(s);
    if n > 0 {
        lemma_varying_fields(out, s, n - 1);
        assert(lines.take(n) =~= lines.take(n - 1).push(lines[n - 1]));
        text::lemma_flat_push(lines.take(n - 1), lines[n - 1]);
        let i = n - 1;
        assert(assemble::varying_fields(out, s, n) == assemble::varying_fields(out, s, n - 1) + field_line(s[n - 1].name, s[n - 1].ty.wxsl_type()@));
    } else {
        assert(lines.take(0) =~= Seq::<Seq<char>>::empty());
        assert(out + text::flat(lines.take(0)) =~= out);
    }
}

proof fn lemma_resources(out: Seq<char>, s: Seq<ResourceBindingView>, n: int)
    requires
        0 <= n <= s.len(),
    ensures
        assemble::resources_declared(out, s, n) == out + text::flat(resources_lines(s).take(n)),
    decreases n,
{
    broadcast use text::lemma_assoc;

    let lines = resources_lines(s);
    if n > 0 {
        lemma_resources(out, s, n - 1);
        assert(lines.take(n) =~= lines.take(n - 1).push(lines[n - 1]));
        text::lemma_flat_push(lines.take(n - 1), lines[n - 1]);
        let i = n - 1;
        assert(assemble::resources_declared(out, s, n) == assemble::resources_declared(out, s, n - 1) + variable_line(s[n - 1]));
    } else {
        assert(lines.take(0) =~= Seq::<Seq<char>>::empty());
        assert(out + text::flat(lines.take(0)) =~= out);
    }
}

proof fn lemma_travelling_attributes(out: Seq<char>, s: Seq<VertexAttributeBindingView>, n: int)
    requires
        0 <= n <= s.len(),
    ensures
        assemble::travelling_attributes(out, s, n) == out + text::flat(travelling_attributes_lines(s).take(n)),
    decreases n,
{
    broadcast use text::lemma_assoc;

    let lines = travelling_attributes_lines(s);
    if n > 0 {
        lemma_travelling_attributes(out, s, n - 1);
        assert(lines.take(n) =~= lines.take(n - 1).push(lines[n - 1]));
        text::lemma_flat_push(lines.take(n - 1), lines[n - 1]);
        let i = n - 1;
        assert(assemble::travelling_attributes(out, s, n) == assemble::travelling_attributes(out, s, n - 1) + located_line(s[n - 1].varying as nat, s[n - 1].name, s[n - 1].ty.wxsl_type()@));
    } else {
        assert(lines.take(0) =~= Seq::<Seq<char>>::empty());
        assert(out + text::flat(lines.take(0)) =~= out);
    }
}

proof fn lemma_travelling_varyings(out: Seq<char>, s: Seq<VaryingBindingView>, n: int)
    requires
        0 <= n <= s.len(),
    ensures
        assemble::travelling_varyings(out, s, n) == out + text::flat(travelling_varyings_lines(s).take(n)),
    decreases n,
{
    broadcast use text::lemma_assoc;

    let lines = travelling_varyings_lines(s);
    if n > 0 {
        lemma_travelling_varyings(out, s, n - 1);
        assert(lines.take(n) =~= lines.take(n - 1).push(lines[n - 1]));
        text::lemma_flat_push(lines.take(n - 1), lines[n - 1]);
        let i = n - 1;
        assert(assemble::travelling_varyings(out, s, n) == assemble::travelling_varyings(out, s, n - 1) + located_line(s[n - 1].varying as nat, s[n - 1].name, s[n - 1].ty.wxsl_type()@));
    } else {
        assert(lines.take(0) =~= Seq::<Seq<char>>::empty());
        assert(out + text::flat(lines.take(0)) =~= out);
    }
}

proof fn lemma_arriving(out: Seq<char>, s: Seq<VertexAttributeBindingView>, n: int)
    requires
        0 <= n <= s.len(),
    ensures
        assemble::arriving(out, s, n) == out + text::flat(arriving_lines(s).take(n)),
    decreases n,
{
    broadcast use text::lemma_assoc;

    let lines = arriving_lines(s);
    if n > 0 {
        lemma_arriving(out, s, n - 1);
        assert(lines.take(n) =~= lines.take(n - 1).push(lines[n - 1]));
        text::lemma_flat_push(lines.take(n - 1), lines[n - 1]);
        let i = n - 1;
        assert(assemble::arriving(out, s, n) == assemble::arriving(out, s, n - 1) + located_line(s[n - 1].location as nat, s[n - 1].name, s[n - 1].ty.wxsl_type()@));
    } else {
        assert(lines.take(0) =~= Seq::<Seq<char>>::empty());
        assert(out + text::flat(lines.take(0)) =~= out);
    }
}

proof fn lemma_attributes_copied(out: Seq<char>, s: Seq<VertexAttributeBindingView>, n: int)
    requires
        0 <= n <= s.len(),
    ensures
        assemble::attributes_copied(out, s, n) == out + text::flat(attributes_copied_lines(s).take(n)),
    decreases n,
{
    broadcast use text::lemma_assoc;

    let lines = attributes_copied_lines(s);
    if n > 0 {
        lemma_attributes_copied(out, s, n - 1);
        assert(lines.take(n) =~= lines.take(n - 1).push(lines[n - 1]));
        text::lemma_flat_push(lines.take(n - 1), lines[n - 1]);
        let i = n - 1;
        assert(assemble::attributes_copied(out, s, n) == assemble::attributes_copied(out, s, n - 1) + unpacked_line(s[n - 1].name));
    } else {
        assert(lines.take(0) =~= Seq::<Seq<char>>::empty());
        assert(out + text::flat(lines.take(0)) =~= out);
    }
}

proof fn lemma_varyings_copied(out: Seq<char>, s: Seq<VaryingBindingView>, n: int)
    requires
        0 <= n <= s.len(),
    ensures
        assemble::varyings_copied(out, s, n) == out + text::flat(varyings_copied_lines(s).take(n)),
    decreases n,
{
    broadcast use text::lemma_assoc;

    let lines = varyings_copied_lines(s);
    if n > 0 {
        lemma_varyings_copied(out, s, n - 1);
        assert(lines.take(n) =~= lines.take(n - 1).push(lines[n - 1]));
        text::lemma_flat_push(lines.take(n - 1), lines[n - 1]);
        let i = n - 1;
        assert(assemble::varyings_copied(out, s, n) == assemble::varyings_copied(out, s, n - 1) + unpacked_line(s[n - 1].name));
    } else {
        assert(lines.take(0) =~= Seq::<Seq<char>>::empty());
        assert(out + text::flat(lines.take(0)) =~= out);
    }
}

proof fn lemma_attributes_handed(out: Seq<char>, s: Seq<VertexAttributeBindingView>, n: int)
    requires
        0 <= n <= s.len(),
    ensures
        assemble::attributes_handed(out, s, n) == out + text::flat(attributes_handed_lines(s).take(n)),
    decreases n,
{
    broadcast use text::lemma_assoc;

    let lines = attributes_handed_lines(s);
    if n > 0 {
        lemma_attributes_handed(out, s, n - 1);
        assert(lines.take(n) =~= lines.take(n - 1).push(lines[n - 1]));
        text::lemma_flat_push(lines.take(n - 1), lines[n - 1]);
        let i = n - 1;
        assert(assemble::attributes_handed(out, s, n) == assemble::attributes_handed(out, s, n - 1) + handed_line(s[n - 1].name, " = extra."@));
    } else {
        assert(lines.take(0) =~= Seq::<Seq<char>>::empty());
        assert(out + text::flat(lines.take(0)) =~= out);
    }
}

proof fn lemma_varyings_computed(out: Seq<char>, s: Seq<(Seq<char>, PartitionView)>, n: int)
    requires
        0 <= n <= s.len(),
    ensures
        assemble::varyings_computed(out, s, n) == out + text::flat(varyings_computed_lines(s).take(n)),
    decreases n,
{
    broadcast use text::lemma_assoc;

    let lines = varyings_computed_lines(s);
    if n > 0 {
        lemma_varyings_computed(out, s, n - 1);
        assert(lines.take(n) =~= lines.take(n - 1).push(lines[n - 1]));
        text::lemma_flat_push(lines.take(n - 1), lines[n - 1]);
        let i = n - 1;
        assert(assemble::varyings_computed(out, s, n) == assemble::varyings_computed(out, s, n - 1) + computed_line(s[n - 1].0));
    } else {
        assert(lines.take(0) =~= Seq::<Seq<char>>::empty());
        assert(out + text::flat(lines.take(0)) =~= out);
    }
}

proof fn lemma_surface_set(out: Seq<char>, s: Seq<(Seq<char>, Seq<char>)>, n: int)
    requires
        0 <= n <= s.len(),
    ensures
        assemble::surface_set(out, s, n) == out + text::flat(surface_set_lines(s).take(n)),
    decreases n,
{
    broadcast use text::lemma_assoc;

    let lines = surface_set_lines(s);
    if n > 0 {
        lemma_surface_set(out, s, n - 1);
        assert(lines.take(n) =~= lines.take(n - 1).push(lines[n - 1]));
        text::lemma_flat_push(lines.take(n - 1), lines[n - 1]);
        let i = n - 1;
        assert(assemble::surface_set(out, s, n) == assemble::surface_set(out, s, n - 1) + surface_line(s[n - 1]));
    } else {
        assert(lines.take(0) =~= Seq::<Seq<char>>::empty());
        assert(out + text::flat(lines.take(0)) =~= out);
    }
}

proof fn lemma_struct_fields(out: Seq<char>, s: Seq<FieldLayoutView>, n: int)
    requires
        forall|i: int| 0 <= i < s.len() ==> !(#[trigger] s[i]).ty.is_resource(),
        0 <= n <= s.len(),
    ensures
        resources::struct_fields_text(out, s, n) == out + text::flat(struct_fields_lines(s).take(n)),
    decreases n,
{
    broadcast use text::lemma_assoc;

    let lines = struct_fields_lines(s);
    if n > 0 {
        lemma_struct_fields(out, s, n - 1);
        assert(lines.take(n) =~= lines.take(n - 1).push(lines[n - 1]));
        text::lemma_flat_push(lines.take(n - 1), lines[n - 1]);
        let i = n - 1;
        assert(resources::struct_fields_text(out, s, n) == resources::struct_fields_text(out, s, n - 1) + field_line(s[n - 1].name, held_type(s[n - 1].ty)));
    } else {
        assert(lines.take(0) =~= Seq::<Seq<char>>::empty());
        assert(out + text::flat(lines.take(0)) =~= out);
    }
}


proof fn lemma_basis_fields(out: Seq<char>, n: int)
    requires
        0 <= n <= abi::VERTEX_OUT_COUNT,
    ensures
        assemble::basis_fields(out, n) == out + text::flat(basis_lines().take(n)),
    decreases n,
{
    broadcast use text::lemma_assoc;

    let lines = basis_lines();
    if n > 0 {
        lemma_basis_fields(out, n - 1);
        assert(lines.take(n) =~= lines.take(n - 1).push(lines[n - 1]));
        text::lemma_flat_push(lines.take(n - 1), lines[n - 1]);
        let field = abi::vertex_out_fields()@[n - 1];
        assert(assemble::basis_fields(out, n) == assemble::basis_fields(out, n - 1)
            + located_line((n - 1) as nat, field.name@, field.ty.wxsl_type()@));
    } else {
        assert(lines.take(0) =~= Seq::<Seq<char>>::empty());
        assert(out + text::flat(lines.take(0)) =~= out);
    }
}

proof fn lemma_basis_handed(out: Seq<char>, n: int)
    requires
        0 <= n <= abi::VERTEX_OUT_COUNT,
    ensures
        assemble::basis_handed(out, n) == out + text::flat(basis_handed_lines().take(n)),
    decreases n,
{
    broadcast use text::lemma_assoc;

    let lines = basis_handed_lines();
    if n > 0 {
        lemma_basis_handed(out, n - 1);
        assert(lines.take(n) =~= lines.take(n - 1).push(lines[n - 1]));
        text::lemma_flat_push(lines.take(n - 1), lines[n - 1]);
        assert(assemble::basis_handed(out, n) == assemble::basis_handed(out, n - 1) + handed_line(
            abi::vertex_out_fields()@[n - 1].name@,
            " = base."@,
        ));
    } else {
        assert(lines.take(0) =~= Seq::<Seq<char>>::empty());
        assert(out + text::flat(lines.take(0)) =~= out);
    }
}

/// The fields of the shading basis, each at the location of its place.
pub open spec fn basis_lines() -> Seq<Seq<char>> {
    Seq::new(
        5,
        |i: int|
            located_line(
                i as nat,
                abi::vertex_out_fields()@[i].name@,
                abi::vertex_out_fields()@[i].ty.wxsl_type()@,
            ),
    )
}

/// The fields of the shading basis, each handed on under its name.
pub open spec fn basis_handed_lines() -> Seq<Seq<char>> {
    Seq::new(5, |i: int| handed_line(abi::vertex_out_fields()@[i].name@, " = base."@))
}

/// All the lines of a list.
pub open spec fn all(lines: Seq<Seq<char>>) -> Seq<char> {
    text::flat(lines)
}

proof fn lemma_whole(lines: Seq<Seq<char>>)
    ensures
        lines.take(lines.len() as int) == lines,
{
    assert(lines.take(lines.len() as int) =~= lines);
}

/// Whether a piece of text stands somewhere in a source.
pub open spec fn occurs(source: Seq<char>, piece: Seq<char>) -> bool {
    exists|before: Seq<char>| text::begins(source, #[trigger] (before + piece))
}

proof fn lemma_occurs(source: Seq<char>, before: Seq<char>, piece: Seq<char>)
    requires
        text::begins(source, before + piece),
    ensures
        occurs(source, piece),
{
}

pub(crate) proof fn lemma_behind_2(
    out: Seq<char>,
    a1: Seq<char>,
    a2: Seq<char>,
)
    ensures
        out + a1 + a2 == out + (a1 + a2),
{
    text::lemma_assoc(out, a1, a2);
}

pub(crate) proof fn lemma_behind_3(
    out: Seq<char>,
    a1: Seq<char>,
    a2: Seq<char>,
    a3: Seq<char>,
)
    ensures
        out + a1 + a2 + a3 == out + (a1 + a2 + a3),
{
    text::lemma_assoc(out, a1, a2);
    text::lemma_assoc(out, a1 + a2, a3);
}

pub(crate) proof fn lemma_behind_4(
    out: Seq<char>,
    a1: Seq<char>,
    a2: Seq<char>,
    a3: Seq<char>,
    a4: Seq<char>,
)
    ensures
        out + a1 + a2 + a3 + a4 == out + (a1 + a2 + a3 + a4),
{
    text::lemma_assoc(out, a1, a2);
    text::lemma_assoc(out, a1 + a2, a3);
    text::lemma_assoc(out, a1 + a2 + a3, a4);
}

pub(crate) proof fn lemma_behind_5(
    out: Seq<char>,
    a1: Seq<char>,
    a2: Seq<char>,
    a3: Seq<char>,
    a4: Seq<char>,
    a5: Seq<char>,
)
    ensures
        out + a1 + a2 + a3 + a4 + a5 == out + (a1 + a2 + a3 + a4 + a5),
{
    text::lemma_assoc(out, a1, a2);
    text::lemma_assoc(out, a1 + a2, a3);
    text::lemma_assoc(out, a1 + a2 + a3, a4);
    text::lemma_assoc(out, a1 + a2 + a3 + a4, a5);
}

pub(crate) proof fn lemma_behind_6(
    out: Seq<char>,
    a1: Seq<char>,
    a2: Seq<char>,
    a3: Seq<char>,
    a4: Seq<char>,
    a5: Seq<char>,
    a6: Seq<char>,
)
    ensures
        out + a1 + a2 + a3 + a4 + a5 + a6 == out + (a1 + a2 + a3 + a4 + a5 + a6),
{
    text::lemma_assoc(out, a1, a2);
    text::lemma_assoc(out, a1 + a2, a3);
    text::lemma_assoc(out, a1 + a2 + a3, a4);
    text::lemma_assoc(out, a1 + a2 + a3 + a4, a5);
    text::lemma_assoc(out, a1 + a2 + a3 + a4 + a5, a6);
}

pub(crate) proof fn lemma_behind_7(
    out: Seq<char>,
    a1: Seq<char>,
    a2: Seq<char>,
    a3: Seq<char>,
    a4: Seq<char>,
    a5: Seq<char>,
    a6: Seq<char>,
    a7: Seq<char>,
)
    ensures
        out + a1 + a2 + a3 + a4 + a5 + a6 + a7 == out + (a1 + a2 + a3 + a4 + a5 + a6 + a7),
{
    text::lemma_assoc(out, a1, a2);
    text::lemma_assoc(out, a1 + a2, a3);
    text::lemma_assoc(out, a1 + a2 + a3, a4);
    text::lemma_assoc(out, a1 + a2 + a3 + a4, a5);
    text::lemma_assoc(out, a1 + a2 + a3 + a4 + a5, a6);
    text::lemma_assoc(out, a1 + a2 + a3 + a4 + a5 + a6, a7);
}

pub(crate) proof fn lemma_behind_8(
    out: Seq<char>,
    a1: Seq<char>,
    a2: Seq<char>,
    a3: Seq<char>,
    a4: Seq<char>,
    a5: Seq<char>,
    a6: Seq<char>,
    a7: Seq<char>,
    a8: Seq<char>,
)
    ensures
        out + a1 + a2 + a3 + a4 + a5 + a6 + a7 + a8 == out + (a1 + a2 + a3 + a4 + a5 + a6 + a7 + a8),
{
    text::lemma_assoc(out, a1, a2);
    text::lemma_assoc(out, a1 + a2, a3);
    text::lemma_assoc(out, a1 + a2 + a3, a4);
    text::lemma_assoc(out, a1 + a2 + a3 + a4, a5);
    text::lemma_assoc(out, a1 + a2 + a3 + a4 + a5, a6);
    text::lemma_assoc(out, a1 + a2 + a3 + a4 + a5 + a6, a7);
    text::lemma_assoc(out, a1 + a2 + a3 + a4 + a5 + a6 + a7, a8);
}

pub(crate) proof fn lemma_behind_9(
    out: Seq<char>,
    a1: Seq<char>,
    a2: Seq<char>,
    a3: Seq<char>,
    a4: Seq<char>,
    a5: Seq<char>,
    a6: Seq<char>,
    a7: Seq<char>,
    a8: Seq<char>,
    a9: Seq<char>,
)
    ensures
        out + a1 + a2 + a3 + a4 + a5 + a6 + a7 + a8 + a9 == out + (a1 + a2 + a3 + a4 + a5 + a6 + a7 + a8 + a9),
{
    text::lemma_assoc(out, a1, a2);
    text::lemma_assoc(out, a1 + a2, a3);
    text::lemma_assoc(out, a1 + a2 + a3, a4);
    text::lemma_assoc(out, a1 + a2 + a3 + a4, a5);
    text::lemma_assoc(out, a1 + a2 + a3 + a4 + a5, a6);
    text::lemma_assoc(out, a1 + a2 + a3 + a4 + a5 + a6, a7);
    text::lemma_assoc(out, a1 + a2 + a3 + a4 + a5 + a6 + a7, a8);
    text::lemma_assoc(out, a1 + a2 + a3 + a4 + a5 + a6 + a7 + a8, a9);
}

pub(crate) proof fn lemma_behind_11(
    out: Seq<char>,
    a1: Seq<char>,
    a2: Seq<char>,
    a3: Seq<char>,
    a4: Seq<char>,
    a5: Seq<char>,
    a6: Seq<char>,
    a7: Seq<char>,
    a8: Seq<char>,
    a9: Seq<char>,
    a10: Seq<char>,
    a11: Seq<char>,
)
    ensures
        out + a1 + a2 + a3 + a4 + a5 + a6 + a7 + a8 + a9 + a10 + a11 == out + (a1 + a2 + a3 + a4 + a5 + a6 + a7 + a8 + a9 + a10 + a11),
{
    text::lemma_assoc(out, a1, a2);
    text::lemma_assoc(out, a1 + a2, a3);
    text::lemma_assoc(out, a1 + a2 + a3, a4);
    text::lemma_assoc(out, a1 + a2 + a3 + a4, a5);
    text::lemma_assoc(out, a1 + a2 + a3 + a4 + a5, a6);
    text::lemma_assoc(out, a1 + a2 + a3 + a4 + a5 + a6, a7);
    text::lemma_assoc(out, a1 + a2 + a3 + a4 + a5 + a6 + a7, a8);
    text::lemma_assoc(out, a1 + a2 + a3 + a4 + a5 + a6 + a7 + a8, a9);
    text::lemma_assoc(out, a1 + a2 + a3 + a4 + a5 + a6 + a7 + a8 + a9, a10);
    text::lemma_assoc(out, a1 + a2 + a3 + a4 + a5 + a6 + a7 + a8 + a9 + a10, a11);
}

pub(crate) proof fn lemma_behind_12(
    out: Seq<char>,
    a1: Seq<char>,
    a2: Seq<char>,
    a3: Seq<char>,
    a4: Seq<char>,
    a5: Seq<char>,
    a6: Seq<char>,
    a7: Seq<char>,
    a8: Seq<char>,
    a9: Seq<char>,
    a10: Seq<char>,
    a11: Seq<char>,
    a12: Seq<char>,
)
    ensures
        out + a1 + a2 + a3 + a4 + a5 + a6 + a7 + a8 + a9 + a10 + a11 + a12 == out + (a1 + a2 + a3 + a4 + a5 + a6 + a7 + a8 + a9 + a10 + a11 + a12),
{
    text::lemma_assoc(out, a1, a2);
    text::lemma_assoc(out, a1 + a2, a3);
    text::lemma_assoc(out, a1 + a2 + a3, a4);
    text::lemma_assoc(out, a1 + a2 + a3 + a4, a5);
    text::lemma_assoc(out, a1 + a2 + a3 + a4 + a5, a6);
    text::lemma_assoc(out, a1 + a2 + a3 + a4 + a5 + a6, a7);
    text::lemma_assoc(out, a1 + a2 + a3 + a4 + a5 + a6 + a7, a8);
    text::lemma_assoc(out, a1 + a2 + a3 + a4 + a5 + a6 + a7 + a8, a9);
    text::lemma_assoc(out, a1 + a2 + a3 + a4 + a5 + a6 + a7 + a8 + a9, a10);
    text::lemma_assoc(out, a1 + a2 + a3 + a4 + a5 + a6 + a7 + a8 + a9 + a10, a11);
    text::lemma_assoc(out, a1 + a2 + a3 + a4 + a5 + a6 + a7 + a8 + a9 + a10 + a11, a12);
}

pub(crate) proof fn lemma_behind_14(
    out: Seq<char>,
    a1: Seq<char>,
    a2: Seq<char>,
    a3: Seq<char>,
    a4: Seq<char>,
    a5: Seq<char>,
    a6: Seq<char>,
    a7: Seq<char>,
    a8: Seq<char>,
    a9: Seq<char>,
    a10: Seq<char>,
    a11: Seq<char>,
    a12: Seq<char>,
    a13: Seq<char>,
    a14: Seq<char>,
)
    ensures
        out + a1 + a2 + a3 + a4 + a5 + a6 + a7 + a8 + a9 + a10 + a11 + a12 + a13 + a14 == out + (a1 + a2 + a3 + a4 + a5 + a6 + a7 + a8 + a9 + a10 + a11 + a12 + a13 + a14),
{
    text::lemma_assoc(out, a1, a2);
    text::lemma_assoc(out, a1 + a2, a3);
    text::lemma_assoc(out, a1 + a2 + a3, a4);
    text::lemma_assoc(out, a1 + a2 + a3 + a4, a5);
    text::lemma_assoc(out, a1 + a2 + a3 + a4 + a5, a6);
    text::lemma_assoc(out, a1 + a2 + a3 + a4 + a5 + a6, a7);
    text::lemma_assoc(out, a1 + a2 + a3 + a4 + a5 + a6 + a7, a8);
    text::lemma_assoc(out, a1 + a2 + a3 + a4 + a5 + a6 + a7 + a8, a9);
    text::lemma_assoc(out, a1 + a2 + a3 + a4 + a5 + a6 + a7 + a8 + a9, a10);
    text::lemma_assoc(out, a1 + a2 + a3 + a4 + a5 + a6 + a7 + a8 + a9 + a10, a11);
    text::lemma_assoc(out, a1 + a2 + a3 + a4 + a5 + a6 + a7 + a8 + a9 + a10 + a11, a12);
    text::lemma_assoc(out, a1 + a2 + a3 + a4 + a5 + a6 + a7 + a8 + a9 + a10 + a11 + a12, a13);
    text::lemma_assoc(out, a1 + a2 + a3 + a4 + a5 + a6 + a7 + a8 + a9 + a10 + a11 + a12 + a13, a14);
}

// ---------------------------------------------------------------------------
// Functions

/// Whether a material asks something of its geometry.
pub open spec fn asks(g: GeometryInterfaceView) -> bool {
    g.vertex.len() > 0 || g.instance.fields.len() > 0 || g.computed.len() > 0
}

/// What a function is declared to take behind its context: the attributes,
/// where the material asks something of its geometry.
pub open spec fn taken(g: GeometryInterfaceView) -> Seq<char> {
    if asks(g) {
        ", "@ + "attrs"@ + ": "@ + "MaterialAttributes"@
    } else {
        ""@
    }
}

/// The function that displaces a vertex.
pub open spec fn vertex_piece(g: GeometryInterfaceView, body: Seq<char>, e: Seq<char>) -> Seq<char> {
    "\nfn "@ + "wxsl_vertex"@ + "("@ + "vtx"@ + ": "@ + "VertexContext"@ + taken(g)
        + ") -> vec3f {\n"@ + body + "    return "@ + e + ";\n}\n"@
}

/// The function that computes an interpolant.
pub open spec fn varying_piece(
    g: GeometryInterfaceView,
    name: Seq<char>,
    ty: ValueType,
    body: Seq<char>,
    e: Seq<char>,
) -> Seq<char> {
    "\nfn "@ + "wxsl_varying_"@ + name + "("@ + "vtx"@ + ": "@ + "VertexContext"@ + taken(g)
        + ") -> "@ + ty.wxsl_type()@ + " {\n"@ + body + "    return "@ + e + ";\n}\n"@
}

/// The function that drops fragments.
pub open spec fn discard_piece(g: GeometryInterfaceView, body: Seq<char>, e: Seq<char>) -> Seq<
    char,
> {
    "\nfn "@ + "wxsl_discard"@ + "("@ + "ctx"@ + ": "@ + "SurfaceContext"@ + taken(g)
        + ") -> bool {\n"@ + body + "    return "@ + e + ";\n}\n"@
}

/// The material function.
pub open spec fn surface_piece(
    name: Seq<char>,
    g: GeometryInterfaceView,
    body: Seq<char>,
    read: Seq<(Seq<char>, Seq<char>)>,
) -> Seq<char> {
    surface_head(name, g) + body + surface_start() + all(surface_set_lines(read))
        + "    return surface;\n}\n"@
}

/// The head of the material function.
pub open spec fn surface_head(name: Seq<char>, g: GeometryInterfaceView) -> Seq<char> {
    "\nfn "@ + name + "("@ + "ctx"@ + ": "@ + "SurfaceContext"@ + taken(g) + ") -> "@ + "Surface"@
        + " {\n"@
}

/// What a surface starts from.
pub open spec fn surface_start() -> Seq<char> {
    "    var surface: "@ + "Surface"@ + " = "@ + "default_surface"@ + "("@ + "ctx"@ + ");\n"@
}

proof fn lemma_surface_head(out: Seq<char>, name: Seq<char>, g: GeometryInterfaceView)
    ensures
        out + "\nfn "@ + name + "("@ + abi::CONTEXT_VAR@ + ": "@ + abi::CONTEXT_STRUCT@
            + assemble::attribute_params(g) + ") -> "@ + abi::SURFACE_STRUCT@ + " {\n"@ == out
            + surface_head(name, g),
{
    broadcast use text::lemma_assoc;

}

proof fn lemma_surface_start(out: Seq<char>)
    ensures
        out + "    var surface: "@ + abi::SURFACE_STRUCT@ + " = "@ + abi::DEFAULT_SURFACE_FN@ + "("@
            + abi::CONTEXT_VAR@ + ");\n"@ == out + surface_start(),
{
    broadcast use text::lemma_assoc;

}

proof fn lemma_vertex_fn(out: Seq<char>, g: GeometryInterfaceView, part: PartitionView)
    ensures
        assemble::vertex_fn_text(out, g, part) == out + vertex_piece(
            g,
            part.body,
            part.input("position_offset"@, "vec3f(0.0, 0.0, 0.0)"@),
        ),
{
    broadcast use text::lemma_assoc;

}

proof fn lemma_discard_fn(out: Seq<char>, g: GeometryInterfaceView, part: PartitionView)
    ensures
        assemble::discard_fn_text(out, g, part) == out + discard_piece(
            g,
            part.body,
            part.input("discard"@, "false"@),
        ),
{
    broadcast use text::lemma_assoc;

}

proof fn lemma_varying_fn(
    out: Seq<char>,
    g: GeometryInterfaceView,
    name: Seq<char>,
    part: PartitionView,
)
    requires
        lists::first_where(g.computed, resources::varying_named(name)) is Some,
    ensures
        assemble::varying_fn_text(out, g, name, part) == out + varying_piece(
            g,
            name,
            lists::first_where(g.computed, resources::varying_named(name))->0.ty,
            part.body,
            part.input(
                "value"@,
                assemble::zero_literal(
                    lists::first_where(g.computed, resources::varying_named(name))->0.ty,
                ),
            ),
        ),
{
    broadcast use text::lemma_assoc;

}

proof fn lemma_surface_fn(
    out: Seq<char>,
    name: Seq<char>,
    g: GeometryInterfaceView,
    part: PartitionView,
)
    ensures
        assemble::surface_fn_text(out, name, g, part) == out + surface_piece(
            name,
            g,
            part.body,
            part.inputs,
        ),
{
    let head = out + "\nfn "@ + name + "("@ + abi::CONTEXT_VAR@ + ": "@ + abi::CONTEXT_STRUCT@
        + assemble::attribute_params(g) + ") -> "@ + abi::SURFACE_STRUCT@ + " {\n"@;
    lemma_surface_head(out, name, g);
    lemma_surface_start(head + part.body);
    let start = head + part.body + "    var surface: "@ + abi::SURFACE_STRUCT@ + " = "@
        + abi::DEFAULT_SURFACE_FN@ + "("@ + abi::CONTEXT_VAR@ + ");\n"@;
    lemma_surface_set(start, part.inputs, part.inputs.len() as int);
    lemma_behind_5(
        out,
        surface_head(name, g),
        part.body,
        surface_start(),
        all(surface_set_lines(part.inputs)),
        "    return surface;\n}\n"@,
    );
    lemma_whole(surface_set_lines(part.inputs));
}

proof fn lemma_varying_fns_begin(
    out: Seq<char>,
    g: GeometryInterfaceView,
    s: Seq<(Seq<char>, PartitionView)>,
    k: int,
    n: int,
)
    requires
        0 <= k <= n,
    ensures
        text::begins(
            assemble::varying_fns_text(out, g, s, n),
            assemble::varying_fns_text(out, g, s, k),
        ),
    decreases n - k,
{
    broadcast use {text::lemma_begins_further, text::lemma_begins_itself};

    if k < n {
        lemma_varying_fns_begin(out, g, s, k, n - 1);
    }
}

proof fn lemma_surface_begins(
    out: Seq<char>,
    name: Seq<char>,
    g: GeometryInterfaceView,
    part: PartitionView,
)
    ensures
        text::begins(assemble::surface_fn_text(out, name, g, part), out),
{
    broadcast use {text::lemma_begins_further, text::lemma_begins_itself};

    lemma_surface_fn(out, name, g, part);
}

/// The functions of a module stand in its text one behind the other.
proof fn lemma_functions(
    out: Seq<char>,
    name: Seq<char>,
    g: GeometryInterfaceView,
    p: PartitionsView,
)
    ensures
        ({
            let source = assemble::functions_text(out, name, g, p);
            &&& text::begins(source, out)
            &&& p.vertex is Some ==> occurs(
                source,
                vertex_piece(
                    g,
                    p.vertex->0.body,
                    p.vertex->0.input("position_offset"@, "vec3f(0.0, 0.0, 0.0)"@),
                ),
            )
            &&& p.discard is Some ==> occurs(
                source,
                discard_piece(g, p.discard->0.body, p.discard->0.input("discard"@, "false"@)),
            )
            &&& p.surface is Some ==> occurs(
                source,
                surface_piece(name, g, p.surface->0.body, p.surface->0.inputs),
            )
            &&& forall|i: int|
                0 <= i < p.varyings.len() && lists::first_where(
                    g.computed,
                    resources::varying_named((#[trigger] p.varyings[i]).0),
                ) is Some ==> {
                    let ty = lists::first_where(
                        g.computed,
                        resources::varying_named(p.varyings[i].0),
                    )->0.ty;
                    occurs(
                        source,
                        varying_piece(
                            g,
                            p.varyings[i].0,
                            ty,
                            p.varyings[i].1.body,
                            p.varyings[i].1.input("value"@, assemble::zero_literal(ty)),
                        ),
                    )
                }
        }),
{
    broadcast use {text::lemma_begins_further, text::lemma_begins_itself};

    let source = assemble::functions_text(out, name, g, p);
    let n = p.varyings.len() as int;
    let vertex = match p.vertex {
        Some(part) => assemble::vertex_fn_text(out, g, part),
        None => out,
    };
    let varyings = assemble::varying_fns_text(vertex, g, p.varyings, n);
    let discard = match p.discard {
        Some(part) => assemble::discard_fn_text(varyings, g, part),
        None => varyings,
    };
    if p.surface is Some {
        lemma_surface_begins(discard, name, g, p.surface->0);
        lemma_surface_fn(discard, name, g, p.surface->0);
        lemma_occurs(
            source,
            discard,
            surface_piece(name, g, p.surface->0.body, p.surface->0.inputs),
        );
    }
    assert(text::begins(source, discard));
    if p.discard is Some {
        lemma_discard_fn(varyings, g, p.discard->0);
        lemma_occurs(
            source,
            varyings,
            discard_piece(
                g,
                p.discard->0.body,
                p.discard->0.input("discard"@, "false"@),
            ),
        );
    }
    assert(text::begins(discard, varyings));
    text::lemma_begins_across(varyings, discard, source);
    lemma_varying_fns_begin(vertex, g, p.varyings, 0, n);
    assert(text::begins(varyings, vertex));
    text::lemma_begins_across(vertex, varyings, source);
    if p.vertex is Some {
        lemma_vertex_fn(out, g, p.vertex->0);
        lemma_occurs(
            source,
            out,
            vertex_piece(
                g,
                p.vertex->0.body,
                p.vertex->0.input("position_offset"@, "vec3f(0.0, 0.0, 0.0)"@),
            ),
        );
    }
    assert(text::begins(vertex, out));
    text::lemma_begins_across(out, vertex, source);
    assert forall|i: int|
        0 <= i < p.varyings.len() && lists::first_where(
            g.computed,
            resources::varying_named((#[trigger] p.varyings[i]).0),
        ) is Some implies {
        let ty = lists::first_where(
            g.computed,
            resources::varying_named(p.varyings[i].0),
        )->0.ty;
        occurs(
            source,
            varying_piece(
                g,
                p.varyings[i].0,
                ty,
                p.varyings[i].1.body,
                p.varyings[i].1.input("value"@, assemble::zero_literal(ty)),
            ),
        )
    } by {
        let before = assemble::varying_fns_text(vertex, g, p.varyings, i);
        let after = assemble::varying_fns_text(vertex, g, p.varyings, i + 1);
        lemma_varying_fns_begin(vertex, g, p.varyings, i + 1, n);
        text::lemma_begins_across(after, varyings, source);
        lemma_varying_fn(before, g, p.varyings[i].0, p.varyings[i].1);
        let ty = lists::first_where(
            g.computed,
            resources::varying_named(p.varyings[i].0),
        )->0.ty;
        lemma_occurs(
            source,
            before,
            varying_piece(
                g,
                p.varyings[i].0,
                ty,
                p.varyings[i].1.body,
                p.varyings[i].1.input("value"@, assemble::zero_literal(ty)),
            ),
        );
    }
}


// ---------------------------------------------------------------------------
// Declarations

/// A struct that holds a buffer.
pub open spec fn struct_piece(l: BufferLayoutView, name: Seq<char>) -> Seq<char> {
    "struct "@ + name + " {\n"@ + all(struct_fields_lines(l.fields)) + "}\n"@
}

/// A variable at a group and a binding.
pub open spec fn bound_piece(
    group: nat,
    binding: nat,
    kind: Seq<char>,
    name: Seq<char>,
    ty: Seq<char>,
) -> Seq<char> {
    "@group("@ + text::decimal(group) + ") @binding("@ + text::decimal(binding) + kind + name
        + ": "@ + ty + ";\n"@
}

/// The material's own parameters.
pub open spec fn params_piece(m: MaterialInterfaceView) -> Seq<char> {
    if m.params.fields.len() > 0 {
        struct_piece(m.params, "MaterialParams"@) + bound_piece(
            1,
            0,
            ") var<uniform> "@,
            "material"@,
            "MaterialParams"@,
        )
    } else {
        Seq::empty()
    }
}

/// The block that the application supplies.
pub open spec fn user_piece(m: MaterialInterfaceView) -> Seq<char> {
    match m.user {
        Some(user) => struct_piece(user.layout, user.struct_name) + bound_piece(
            2,
            0,
            ") var<uniform> "@,
            user.name,
            user.struct_name,
        ),
        None => Seq::empty(),
    }
}

/// The struct that carries the attributes.
pub open spec fn attributes_piece(g: GeometryInterfaceView) -> Seq<char> {
    "struct "@ + "MaterialAttributes"@ + " {\n"@ + (if g.instance_index_location is Some {
        "    "@ + "wxsl_instance"@ + ": u32,\n"@
    } else {
        Seq::empty()
    }) + all(attribute_fields_lines(g.vertex)) + all(varying_fields_lines(g.computed)) + "}\n"@
}

/// The rows that the instances carry.
pub open spec fn rows_piece(g: GeometryInterfaceView) -> Seq<char> {
    if g.instance_index_location is Some {
        struct_piece(g.instance, "MaterialInstance"@) + ("@group("@ + text::decimal(0)
            + ") @binding("@ + text::decimal(3) + ") var<storage, read> "@
            + "wxsl_instance_attributes"@ + ": array<"@ + "MaterialInstance"@ + ">;\n"@)
    } else {
        Seq::empty()
    }
}

/// Everything that a module needs bound: its parameters, each texture and
/// sampler, the application's block, and what the geometry supplies.
pub open spec fn declared_piece(m: MaterialInterfaceView) -> Seq<char> {
    if m.params.fields.len() == 0 && m.resources.len() == 0 && m.user is None && !asks(m.geometry) {
        Seq::empty()
    } else {
        "\n"@ + params_piece(m) + all(resources_lines(m.resources)) + user_piece(m) + (if asks(
            m.geometry,
        ) {
            attributes_piece(m.geometry) + rows_piece(m.geometry)
        } else {
            Seq::empty()
        })
    }
}

/// The buffers hold values only.
pub open spec fn values_only(m: MaterialInterfaceView) -> bool {
    &&& held(m.params)
    &&& m.user is Some ==> held(m.user->0.layout)
    &&& held(m.geometry.instance)
}

/// A buffer holds values only.
pub open spec fn held(l: BufferLayoutView) -> bool {
    forall|i: int| 0 <= i < l.fields.len() ==> !(#[trigger] l.fields[i]).ty.is_resource()
}

proof fn lemma_struct(l: BufferLayoutView, name: Seq<char>)
    requires
        held(l),
    ensures
        resources::struct_text(l, name) == struct_piece(l, name),
{
    lemma_struct_fields("struct "@ + name + " {\n"@, l.fields, l.fields.len() as int);
    lemma_whole(struct_fields_lines(l.fields));
}

proof fn lemma_nothing_more(out: Seq<char>)
    ensures
        out + Seq::<char>::empty() == out,
{
    assert(out + Seq::<char>::empty() =~= out);
}

proof fn lemma_attributes(out: Seq<char>, g: GeometryInterfaceView)
    ensures
        ({
            let head = out + "struct "@ + abi::MATERIAL_ATTRIBUTES_STRUCT@ + " {\n"@;
            let index = if g.instance_index_location is Some {
                head + "    "@ + abi::INSTANCE_INDEX_FIELD@ + ": u32,\n"@
            } else {
                head
            };
            assemble::varying_fields(
                assemble::attribute_fields(index, g.vertex, g.vertex.len() as int),
                g.computed,
                g.computed.len() as int,
            ) + "}\n"@ == out + attributes_piece(g)
        }),
{
    let head = out + "struct "@ + abi::MATERIAL_ATTRIBUTES_STRUCT@ + " {\n"@;
    lemma_nothing_more(head);
    lemma_behind_3(head, "    "@, "wxsl_instance"@, ": u32,\n"@);
    let index = if g.instance_index_location is Some {
        head + "    "@ + abi::INSTANCE_INDEX_FIELD@ + ": u32,\n"@
    } else {
        head
    };
    lemma_attribute_fields(index, g.vertex, g.vertex.len() as int);
    lemma_whole(attribute_fields_lines(g.vertex));
    let one = assemble::attribute_fields(index, g.vertex, g.vertex.len() as int);
    lemma_varying_fields(one, g.computed, g.computed.len() as int);
    lemma_whole(varying_fields_lines(g.computed));
    let i = if g.instance_index_location is Some {
        "    "@ + "wxsl_instance"@ + ": u32,\n"@
    } else {
        Seq::empty()
    };
    assert(index == head + i);
    lemma_behind_7(
        out,
        "struct "@,
        "MaterialAttributes"@,
        " {\n"@,
        i,
        all(attribute_fields_lines(g.vertex)),
        all(varying_fields_lines(g.computed)),
        "}\n"@,
    );
}

proof fn lemma_geometry(out: Seq<char>, g: GeometryInterfaceView)
    requires
        held(g.instance),
    ensures
        assemble::geometry_declared(out, g) == out + (if asks(g) {
            attributes_piece(g) + rows_piece(g)
        } else {
            Seq::empty()
        }),
{
    lemma_nothing_more(out);
    if asks(g) {
        lemma_attributes(out, g);
        lemma_struct(g.instance, "MaterialInstance"@);
        lemma_rows(out, attributes_piece(g), g);
    }
}

proof fn lemma_rows(out: Seq<char>, attributes: Seq<char>, g: GeometryInterfaceView)
    requires
        resources::struct_text(g.instance, "MaterialInstance"@) == struct_piece(
            g.instance,
            "MaterialInstance"@,
        ),
    ensures
        (if g.instance_index_location is Some {
            (out + attributes) + resources::struct_text(g.instance, abi::MATERIAL_INSTANCE_STRUCT@)
                + "@group("@ + text::decimal(abi::GROUP_FRAME as nat) + ") @binding("@
                + text::decimal(abi::BINDING_INSTANCE_ATTRIBUTES as nat) + ") var<storage, read> "@
                + abi::MATERIAL_INSTANCE_VAR@ + ": array<"@ + abi::MATERIAL_INSTANCE_STRUCT@
                + ">;\n"@
        } else {
            out + attributes
        }) == out + (attributes + rows_piece(g)),
{
    lemma_nothing_more(attributes);
    let s = struct_piece(g.instance, "MaterialInstance"@);
    lemma_behind_9(
        (out + attributes) + s,
        "@group("@,
        text::decimal(0),
        ") @binding("@,
        text::decimal(3),
        ") var<storage, read> "@,
        "wxsl_instance_attributes"@,
        ": array<"@,
        "MaterialInstance"@,
        ">;\n"@,
    );
    let row = "@group("@ + text::decimal(0) + ") @binding("@ + text::decimal(3)
        + ") var<storage, read> "@ + "wxsl_instance_attributes"@ + ": array<"@
        + "MaterialInstance"@ + ">;\n"@;
    text::lemma_assoc(out + attributes, s, row);
    text::lemma_assoc(out, attributes, s + row);
}

proof fn lemma_params(out: Seq<char>, m: MaterialInterfaceView)
    requires
        held(m.params),
    ensures
        (if m.params.fields.len() > 0 {
            out + resources::struct_text(m.params, abi::MATERIAL_PARAMS_STRUCT@) + "@group("@
                + text::decimal(abi::GROUP_MATERIAL as nat) + ") @binding("@
                + text::decimal(abi::BINDING_MATERIAL_PARAMS as nat) + ") var<uniform> "@
                + abi::MATERIAL_PARAMS_VAR@ + ": "@ + abi::MATERIAL_PARAMS_STRUCT@ + ";\n"@
        } else {
            out
        }) == out + params_piece(m),
{
    lemma_struct(m.params, "MaterialParams"@);
    lemma_bound(
        out,
        struct_piece(m.params, "MaterialParams"@),
        1,
        0,
        ") var<uniform> "@,
        "material"@,
        "MaterialParams"@,
    );
    lemma_nothing_more(out);
}

proof fn lemma_bound(
    out: Seq<char>,
    s: Seq<char>,
    group: nat,
    binding: nat,
    kind: Seq<char>,
    name: Seq<char>,
    ty: Seq<char>,
)
    ensures
        out + s + "@group("@ + text::decimal(group) + ") @binding("@ + text::decimal(binding) + kind
            + name + ": "@ + ty + ";\n"@ == out + (s + bound_piece(group, binding, kind, name, ty)),
{
    lemma_behind_9(
        out + s,
        "@group("@,
        text::decimal(group),
        ") @binding("@,
        text::decimal(binding),
        kind,
        name,
        ": "@,
        ty,
        ";\n"@,
    );
    text::lemma_assoc(out, s, bound_piece(group, binding, kind, name, ty));
}

proof fn lemma_user(out: Seq<char>, m: MaterialInterfaceView)
    requires
        m.user is Some ==> held(m.user->0.layout),
    ensures
        (match m.user {
            Some(user) => out + resources::struct_text(user.layout, user.struct_name) + "@group("@
                + text::decimal(abi::GROUP_USER as nat) + ") @binding("@ + text::decimal(
                abi::BINDING_USER_BLOCK as nat,
            ) + ") var<uniform> "@ + user.name + ": "@ + user.struct_name + ";\n"@,
            None => out,
        }) == out + user_piece(m),
{
    lemma_nothing_more(out);
    if m.user is Some {
        let user = m.user->0;
        lemma_struct(user.layout, user.struct_name);
        lemma_bound(
            out,
            struct_piece(user.layout, user.struct_name),
            2,
            0,
            ") var<uniform> "@,
            user.name,
            user.struct_name,
        );
    }
}

proof fn lemma_declared(out: Seq<char>, m: MaterialInterfaceView)
    requires
        values_only(m),
    ensures
        assemble::declarations(out, m) == out + declared_piece(m),
{
    lemma_nothing_more(out);
    let start = out + "\n"@;
    lemma_params(start, m);
    let params = start + params_piece(m);
    lemma_resources(params, m.resources, m.resources.len() as int);
    lemma_whole(resources_lines(m.resources));
    let group = params + all(resources_lines(m.resources));
    lemma_user(group, m);
    let user = group + user_piece(m);
    lemma_geometry(user, m.geometry);
    lemma_behind_5(
        out,
        "\n"@,
        params_piece(m),
        all(resources_lines(m.resources)),
        user_piece(m),
        if asks(m.geometry) {
            attributes_piece(m.geometry) + rows_piece(m.geometry)
        } else {
            Seq::empty()
        },
    );
}


// ---------------------------------------------------------------------------
// Entry points

/// What travels beside the shading basis: the instance index, the attributes
/// and the interpolants, each at its location.
pub open spec fn travelling_piece(g: GeometryInterfaceView) -> Seq<char> {
    (match g.instance_index_location {
        Some(location) => "    @location("@ + text::decimal(location as nat)
            + ") @interpolate(flat) "@ + "wxsl_instance"@ + ": u32,\n"@,
        None => Seq::empty(),
    }) + all(travelling_attributes_lines(g.vertex)) + all(travelling_varyings_lines(g.computed))
}

/// What the vertex stage takes of the attributes.
pub open spec fn vertex_in_piece(g: GeometryInterfaceView) -> Seq<char> {
    if g.vertex.len() > 0 {
        "struct "@ + "MaterialVertexIn"@ + " {\n"@ + all(arriving_lines(g.vertex)) + "}\n"@
    } else {
        Seq::empty()
    }
}

/// What the vertex stage writes.
pub open spec fn vertex_out_piece(g: GeometryInterfaceView) -> Seq<char> {
    "struct "@ + "MaterialVertexOut"@ + " {\n    @builtin(position) "@ + "clip_position"@
        + ": vec4f,\n"@ + all(basis_lines()) + travelling_piece(g) + "}\n"@
}

/// What the fragment stage reads of that: the same, at the same locations.
pub open spec fn varyings_in_piece(g: GeometryInterfaceView) -> Seq<char> {
    "struct "@ + "MaterialVaryings"@ + " {\n"@ + travelling_piece(g) + "}\n"@
}

proof fn lemma_travelling(out: Seq<char>, g: GeometryInterfaceView)
    ensures
        assemble::travelling(out, g) == out + travelling_piece(g),
{
    let index = match g.instance_index_location {
        Some(location) => "    @location("@ + text::decimal(location as nat)
            + ") @interpolate(flat) "@ + "wxsl_instance"@ + ": u32,\n"@,
        None => Seq::empty(),
    };
    lemma_nothing_more(out);
    if g.instance_index_location is Some {
        lemma_behind_5(
            out,
            "    @location("@,
            text::decimal(g.instance_index_location->0 as nat),
            ") @interpolate(flat) "@,
            "wxsl_instance"@,
            ": u32,\n"@,
        );
    }
    let one = out + index;
    lemma_travelling_attributes(one, g.vertex, g.vertex.len() as int);
    lemma_whole(travelling_attributes_lines(g.vertex));
    let two = one + all(travelling_attributes_lines(g.vertex));
    lemma_travelling_varyings(two, g.computed, g.computed.len() as int);
    lemma_whole(travelling_varyings_lines(g.computed));
    lemma_behind_3(
        out,
        index,
        all(travelling_attributes_lines(g.vertex)),
        all(travelling_varyings_lines(g.computed)),
    );
}

proof fn lemma_vertex_in(out: Seq<char>, g: GeometryInterfaceView)
    ensures
        (if g.vertex.len() > 0 {
            assemble::arriving(
                out + "struct "@ + abi::MATERIAL_VERTEX_IN_STRUCT@ + " {\n"@,
                g.vertex,
                g.vertex.len() as int,
            ) + "}\n"@
        } else {
            out
        }) == out + vertex_in_piece(g),
{
    lemma_nothing_more(out);
    lemma_arriving(
        out + "struct "@ + abi::MATERIAL_VERTEX_IN_STRUCT@ + " {\n"@,
        g.vertex,
        g.vertex.len() as int,
    );
    lemma_whole(arriving_lines(g.vertex));
    lemma_behind_5(
        out,
        "struct "@,
        "MaterialVertexIn"@,
        " {\n"@,
        all(arriving_lines(g.vertex)),
        "}\n"@,
    );
}

proof fn lemma_vertex_out(out: Seq<char>, g: GeometryInterfaceView)
    ensures
        assemble::travelling(
            assemble::basis_fields(
                out + "struct "@ + abi::MATERIAL_VERTEX_OUT_STRUCT@
                    + " {\n    @builtin(position) "@ + abi::CLIP_POSITION_FIELD@ + ": vec4f,\n"@,
                abi::VERTEX_OUT_COUNT as int,
            ),
            g,
        ) + "}\n"@ == out + vertex_out_piece(g),
{
    let head = out + "struct "@ + abi::MATERIAL_VERTEX_OUT_STRUCT@ + " {\n    @builtin(position) "@
        + abi::CLIP_POSITION_FIELD@ + ": vec4f,\n"@;
    lemma_basis_fields(head, 5);
    lemma_whole(basis_lines());
    lemma_travelling(head + all(basis_lines()), g);
    lemma_behind_8(
        out,
        "struct "@,
        "MaterialVertexOut"@,
        " {\n    @builtin(position) "@,
        "clip_position"@,
        ": vec4f,\n"@,
        all(basis_lines()),
        travelling_piece(g),
        "}\n"@,
    );
}

proof fn lemma_varyings_in(out: Seq<char>, g: GeometryInterfaceView)
    ensures
        assemble::travelling(out + "struct "@ + abi::MATERIAL_VARYINGS_STRUCT@ + " {\n"@, g)
            + "}\n"@ == out + varyings_in_piece(g),
{
    lemma_travelling(out + "struct "@ + abi::MATERIAL_VARYINGS_STRUCT@ + " {\n"@, g);
    lemma_behind_5(
        out,
        "struct "@,
        "MaterialVaryings"@,
        " {\n"@,
        travelling_piece(g),
        "}\n"@,
    );
}

/// The structs that carry attributes and interpolants between the stages.
pub open spec fn carriers_piece(g: GeometryInterfaceView) -> Seq<char> {
    if asks(g) {
        "\n"@ + vertex_in_piece(g) + vertex_out_piece(g) + varyings_in_piece(g)
    } else {
        Seq::empty()
    }
}

proof fn lemma_carriers(out: Seq<char>, g: GeometryInterfaceView)
    ensures
        assemble::carriers(out, g) == out + carriers_piece(g),
{
    lemma_nothing_more(out);
    if asks(g) {
        let start = out + "\n"@;
        lemma_vertex_in(start, g);
        let input = start + vertex_in_piece(g);
        lemma_vertex_out(input, g);
        let output = input + vertex_out_piece(g);
        lemma_varyings_in(output, g);
        lemma_behind_4(
            out,
            "\n"@,
            vertex_in_piece(g),
            vertex_out_piece(g),
            varyings_in_piece(g),
        );
    }
}

/// Whether the vertex entry computes something of the graph.
pub open spec fn runs_graph(p: PartitionsView) -> bool {
    p.vertex is Some || p.varyings.len() > 0
}

/// The context, where the vertex entry computes something of the graph.
pub open spec fn context_piece(p: PartitionsView) -> Seq<char> {
    if runs_graph(p) {
        "    let "@ + "vtx"@ + " = "@ + "vertex_context"@ + "(input);\n"@
    } else {
        Seq::empty()
    }
}

/// How a vertex is transformed: by the displacement that the graph computes,
/// where it computes one.
pub open spec fn transform_piece(displaces: bool, args: Seq<char>) -> Seq<char> {
    if displaces {
        "transform_vertex_offset"@ + "(input, "@ + "wxsl_vertex"@ + "("@ + "vtx"@ + args + "))"@
    } else {
        "transform_vertex"@ + "(input)"@
    }
}

/// The vertex entry of a material that asks nothing of its geometry.
pub open spec fn plain_entry_piece(entry: Seq<char>, p: PartitionsView) -> Seq<char> {
    "\n@vertex\nfn "@ + entry + "(input: "@ + "VertexIn"@ + ") -> "@ + "VertexOut"@ + " {\n"@
        + context_piece(p) + "    return "@ + transform_piece(p.vertex is Some, ""@) + ";\n}\n"@
}

proof fn lemma_context(out: Seq<char>, p: PartitionsView)
    ensures
        assemble::context_bound(out, p) == out + context_piece(p),
{
    lemma_nothing_more(out);
    lemma_behind_5(out, "    let "@, "vtx"@, " = "@, "vertex_context"@, "(input);\n"@);
}

proof fn lemma_transform(out: Seq<char>, displaces: bool, args: Seq<char>)
    ensures
        assemble::transformed(out, displaces, args) == out + transform_piece(displaces, args),
{
    lemma_behind_7(
        out,
        "transform_vertex_offset"@,
        "(input, "@,
        "wxsl_vertex"@,
        "("@,
        "vtx"@,
        args,
        "))"@,
    );
    lemma_behind_2(out, "transform_vertex"@, "(input)"@);
}

proof fn lemma_plain_entry(out: Seq<char>, o: CodegenOptionsView, p: PartitionsView)
    ensures
        assemble::plain_vertex_entry(out, o, p) == out + plain_entry_piece(o.vertex_entry, p),
{
    let head = out + "\n@vertex\nfn "@ + o.vertex_entry + "(input: "@ + abi::VERTEX_IN_STRUCT@
        + ") -> "@ + abi::VERTEX_OUT_STRUCT@ + " {\n"@;
    lemma_context(head, p);
    lemma_transform(head + context_piece(p) + "    return "@, p.vertex is Some, ""@);
    lemma_behind_11(
        out,
        "\n@vertex\nfn "@,
        o.vertex_entry,
        "(input: "@,
        "VertexIn"@,
        ") -> "@,
        "VertexOut"@,
        " {\n"@,
        context_piece(p),
        "    return "@,
        transform_piece(p.vertex is Some, ""@),
        ";\n}\n"@,
    );
}

/// The attributes, as the vertex entry has them.
pub open spec fn attributes_in_piece(g: GeometryInterfaceView, p: PartitionsView) -> Seq<char> {
    if runs_graph(p) {
        "    var "@ + "attrs"@ + ": "@ + "MaterialAttributes"@ + ";\n"@ + (
        if g.instance_index_location is Some {
            "    "@ + "attrs"@ + "."@ + "wxsl_instance"@ + " = input.instance;\n"@
        } else {
            Seq::empty()
        }) + all(attributes_copied_lines(g.vertex))
    } else {
        Seq::empty()
    }
}

proof fn lemma_attributes_in(out: Seq<char>, g: GeometryInterfaceView, p: PartitionsView)
    ensures
        assemble::attributes_bound(out, g, p) == out + attributes_in_piece(g, p),
{
    lemma_nothing_more(out);
    if runs_graph(p) {
        let declared = out + "    var "@ + abi::MATERIAL_ATTRIBUTES_VAR@ + ": "@
            + abi::MATERIAL_ATTRIBUTES_STRUCT@ + ";\n"@;
        lemma_nothing_more(declared);
        lemma_behind_5(
            declared,
            "    "@,
            "attrs"@,
            "."@,
            "wxsl_instance"@,
            " = input.instance;\n"@,
        );
        let index = if g.instance_index_location is Some {
            "    "@ + "attrs"@ + "."@ + "wxsl_instance"@ + " = input.instance;\n"@
        } else {
            Seq::empty()
        };
        lemma_attributes_copied(declared + index, g.vertex, g.vertex.len() as int);
        lemma_whole(attributes_copied_lines(g.vertex));
        lemma_behind_7(
            out,
            "    var "@,
            "attrs"@,
            ": "@,
            "MaterialAttributes"@,
            ";\n"@,
            index,
            all(attributes_copied_lines(g.vertex)),
        );
    }
}

/// The head of the vertex entry of a material that asks something of its
/// geometry.
pub open spec fn wide_head_piece(entry: Seq<char>, g: GeometryInterfaceView) -> Seq<char> {
    "\n@vertex\nfn "@ + entry + "(input: "@ + "VertexIn"@ + (if g.vertex.len() > 0 {
        ", extra: "@ + "MaterialVertexIn"@
    } else {
        Seq::empty()
    }) + ") -> "@ + "MaterialVertexOut"@ + " {\n"@
}

/// What the vertex entry starts its output from.
pub open spec fn wide_base_piece(p: PartitionsView) -> Seq<char> {
    "    let base = "@ + transform_piece(p.vertex is Some, ", "@ + "attrs"@) + ";\n    var out: "@
        + "MaterialVertexOut"@ + ";\n    out."@ + "clip_position"@ + " = base."@ + "clip_position"@
        + ";\n"@
}

/// What the vertex entry hands on: the shading basis, the instance index and
/// the attributes as they are, and each interpolant as its own function
/// computes it.
pub open spec fn handed_piece(g: GeometryInterfaceView, p: PartitionsView) -> Seq<char> {
    all(basis_handed_lines()) + (if g.instance_index_location is Some {
        "    out."@ + "wxsl_instance"@ + " = input.instance;\n"@
    } else {
        Seq::empty()
    }) + all(attributes_handed_lines(g.vertex)) + all(varyings_computed_lines(p.varyings))
        + "    return out;\n}\n"@
}

/// The vertex entry of a material that asks something of its geometry.
pub open spec fn wide_entry_piece(
    entry: Seq<char>,
    g: GeometryInterfaceView,
    p: PartitionsView,
) -> Seq<char> {
    wide_head_piece(entry, g) + attributes_in_piece(g, p) + context_piece(p) + wide_base_piece(p)
        + handed_piece(g, p)
}

proof fn lemma_wide_head(out: Seq<char>, entry: Seq<char>, g: GeometryInterfaceView)
    ensures
        ({
            let head = out + "\n@vertex\nfn "@ + entry + "(input: "@ + abi::VERTEX_IN_STRUCT@;
            let params = if g.vertex.len() > 0 {
                head + ", extra: "@ + abi::MATERIAL_VERTEX_IN_STRUCT@
            } else {
                head
            };
            params + ") -> "@ + abi::MATERIAL_VERTEX_OUT_STRUCT@ + " {\n"@ == out + wide_head_piece(
                entry,
                g,
            )
        }),
{
    let head = out + "\n@vertex\nfn "@ + entry + "(input: "@ + abi::VERTEX_IN_STRUCT@;
    let extra = if g.vertex.len() > 0 {
        ", extra: "@ + "MaterialVertexIn"@
    } else {
        Seq::empty()
    };
    lemma_nothing_more(head);
    lemma_behind_2(head, ", extra: "@, "MaterialVertexIn"@);
    lemma_behind_8(
        out,
        "\n@vertex\nfn "@,
        entry,
        "(input: "@,
        "VertexIn"@,
        extra,
        ") -> "@,
        "MaterialVertexOut"@,
        " {\n"@,
    );
}

proof fn lemma_wide_base(out: Seq<char>, p: PartitionsView)
    ensures
        assemble::transformed(
            out + "    let base = "@,
            p.vertex is Some,
            ", "@ + abi::MATERIAL_ATTRIBUTES_VAR@,
        ) + ";\n    var out: "@ + abi::MATERIAL_VERTEX_OUT_STRUCT@ + ";\n    out."@
            + abi::CLIP_POSITION_FIELD@ + " = base."@ + abi::CLIP_POSITION_FIELD@ + ";\n"@ == out
            + wide_base_piece(p),
{
    let args = ", "@ + "attrs"@;
    lemma_transform(out + "    let base = "@, p.vertex is Some, args);
    lemma_behind_9(
        out,
        "    let base = "@,
        transform_piece(p.vertex is Some, args),
        ";\n    var out: "@,
        "MaterialVertexOut"@,
        ";\n    out."@,
        "clip_position"@,
        " = base."@,
        "clip_position"@,
        ";\n"@,
    );
}

proof fn lemma_handed(out: Seq<char>, g: GeometryInterfaceView, p: PartitionsView)
    ensures
        ({
            let basis = assemble::basis_handed(out, abi::VERTEX_OUT_COUNT as int);
            assemble::varyings_computed(
                assemble::attributes_handed(
                    if g.instance_index_location is Some {
                        basis + "    out."@ + abi::INSTANCE_INDEX_FIELD@ + " = input.instance;\n"@
                    } else {
                        basis
                    },
                    g.vertex,
                    g.vertex.len() as int,
                ),
                p.varyings,
                p.varyings.len() as int,
            ) + "    return out;\n}\n"@ == out + handed_piece(g, p)
        }),
{
    lemma_basis_handed(out, 5);
    lemma_whole(basis_handed_lines());
    let basis = out + all(basis_handed_lines());
    let index = if g.instance_index_location is Some {
        "    out."@ + "wxsl_instance"@ + " = input.instance;\n"@
    } else {
        Seq::empty()
    };
    lemma_nothing_more(basis);
    lemma_behind_3(basis, "    out."@, "wxsl_instance"@, " = input.instance;\n"@);
    lemma_attributes_handed(basis + index, g.vertex, g.vertex.len() as int);
    lemma_whole(attributes_handed_lines(g.vertex));
    let handed = basis + index + all(attributes_handed_lines(g.vertex));
    lemma_varyings_computed(handed, p.varyings, p.varyings.len() as int);
    lemma_whole(varyings_computed_lines(p.varyings));
    lemma_behind_5(
        out,
        all(basis_handed_lines()),
        index,
        all(attributes_handed_lines(g.vertex)),
        all(varyings_computed_lines(p.varyings)),
        "    return out;\n}\n"@,
    );
}

proof fn lemma_wide_entry(
    out: Seq<char>,
    o: CodegenOptionsView,
    g: GeometryInterfaceView,
    p: PartitionsView,
)
    ensures
        assemble::wide_vertex_entry(out, o, g, p) == out + wide_entry_piece(o.vertex_entry, g, p),
{
    lemma_wide_head(out, o.vertex_entry, g);
    let one = out + wide_head_piece(o.vertex_entry, g);
    lemma_attributes_in(one, g, p);
    let two = one + attributes_in_piece(g, p);
    lemma_context(two, p);
    let three = two + context_piece(p);
    lemma_wide_base(three, p);
    let four = three + wide_base_piece(p);
    lemma_handed(four, g, p);
    lemma_behind_5(
        out,
        wide_head_piece(o.vertex_entry, g),
        attributes_in_piece(g, p),
        context_piece(p),
        wide_base_piece(p),
        handed_piece(g, p),
    );
}


/// The attributes, as the fragment entry has them: each what travelled under
/// its name.
pub open spec fn attributes_back_piece(g: GeometryInterfaceView) -> Seq<char> {
    if asks(g) {
        "    var "@ + "attrs"@ + ": "@ + "MaterialAttributes"@ + ";\n"@ + (
        if g.instance_index_location is Some {
            "    "@ + "attrs"@ + "."@ + "wxsl_instance"@ + " = extra."@ + "wxsl_instance"@ + ";\n"@
        } else {
            Seq::empty()
        }) + all(attributes_copied_lines(g.vertex)) + all(varyings_copied_lines(g.computed))
    } else {
        Seq::empty()
    }
}

proof fn lemma_attributes_back(out: Seq<char>, g: GeometryInterfaceView)
    ensures
        assemble::attributes_unpacked(out, g) == out + attributes_back_piece(g),
{
    lemma_nothing_more(out);
    if asks(g) {
        let declared = out + "    var "@ + abi::MATERIAL_ATTRIBUTES_VAR@ + ": "@
            + abi::MATERIAL_ATTRIBUTES_STRUCT@ + ";\n"@;
        lemma_nothing_more(declared);
        lemma_behind_7(
            declared,
            "    "@,
            "attrs"@,
            "."@,
            "wxsl_instance"@,
            " = extra."@,
            "wxsl_instance"@,
            ";\n"@,
        );
        let index = if g.instance_index_location is Some {
            "    "@ + "attrs"@ + "."@ + "wxsl_instance"@ + " = extra."@ + "wxsl_instance"@ + ";\n"@
        } else {
            Seq::empty()
        };
        lemma_attributes_copied(declared + index, g.vertex, g.vertex.len() as int);
        lemma_whole(attributes_copied_lines(g.vertex));
        let copied = declared + index + all(attributes_copied_lines(g.vertex));
        lemma_varyings_copied(copied, g.computed, g.computed.len() as int);
        lemma_whole(varyings_copied_lines(g.computed));
        lemma_behind_8(
            out,
            "    var "@,
            "attrs"@,
            ": "@,
            "MaterialAttributes"@,
            ";\n"@,
            index,
            all(attributes_copied_lines(g.vertex)),
            all(varyings_copied_lines(g.computed)),
        );
    }
}

/// What a function of the material is handed behind its context.
pub open spec fn handed_args(g: GeometryInterfaceView) -> Seq<char> {
    if asks(g) {
        ", "@ + "attrs"@
    } else {
        ""@
    }
}

/// What the fragment entry does first: it takes the attributes, and drops the
/// fragment where the graph says so.
pub open spec fn fragment_start_piece(g: GeometryInterfaceView, p: PartitionsView) -> Seq<char> {
    "    let "@ + "ctx"@ + " = "@ + "surface_context"@ + "(vertex);\n"@ + attributes_back_piece(g)
        + (if p.discard is Some {
        "    if "@ + "wxsl_discard"@ + "("@ + "ctx"@ + handed_args(g)
            + ") {\n        discard;\n    }\n"@
    } else {
        Seq::empty()
    })
}

proof fn lemma_fragment_start(out: Seq<char>, g: GeometryInterfaceView, p: PartitionsView)
    ensures
        assemble::fragment_prologue(out, g, p) == out + fragment_start_piece(g, p),
{
    let head = out + "    let "@ + abi::CONTEXT_VAR@ + " = "@ + abi::SURFACE_CONTEXT_FN@
        + "(vertex);\n"@;
    lemma_attributes_back(head, g);
    let unpacked = head + attributes_back_piece(g);
    lemma_nothing_more(unpacked);
    lemma_behind_6(
        unpacked,
        "    if "@,
        "wxsl_discard"@,
        "("@,
        "ctx"@,
        handed_args(g),
        ") {\n        discard;\n    }\n"@,
    );
    let dropped = if p.discard is Some {
        "    if "@ + "wxsl_discard"@ + "("@ + "ctx"@ + handed_args(g)
            + ") {\n        discard;\n    }\n"@
    } else {
        Seq::empty()
    };
    lemma_behind_7(
        out,
        "    let "@,
        "ctx"@,
        " = "@,
        "surface_context"@,
        "(vertex);\n"@,
        attributes_back_piece(g),
        dropped,
    );
}

/// The head of the fragment entry.
pub open spec fn fragment_head_piece(entry: Seq<char>, g: GeometryInterfaceView) -> Seq<char> {
    "\n@fragment\nfn "@ + entry + "(vertex: "@ + "VertexOut"@ + (if asks(g) {
        ", extra: "@ + "MaterialVaryings"@
    } else {
        Seq::empty()
    })
}

/// What the fragment entry gives back: the material's surface shaded, the
/// material's surface packed, or nothing.
pub open spec fn fragment_end_piece(
    o: CodegenOptionsView,
    g: GeometryInterfaceView,
    p: PartitionsView,
) -> Seq<char> {
    match o.stage.output() {
        StageOutput::Color => ") -> @location(0) vec4f {\n"@ + fragment_start_piece(g, p)
            + "    return "@ + "shade_surface"@ + "("@ + o.material_fn + "("@ + "ctx"@
            + handed_args(g) + "), "@ + "ctx"@ + ");\n}\n"@,
        StageOutput::GBuffer => ") -> "@ + "GBuffer"@ + " {\n"@ + fragment_start_piece(g, p)
            + "    return "@ + "pack_gbuffer"@ + "("@ + o.material_fn + "("@ + "ctx"@
            + handed_args(g) + ")"@ + (if o.lighting.set.len() > 1 {
            ", "@ + text::decimal(o.lighting.model as nat) + "u"@
        } else {
            Seq::empty()
        }) + ");\n}\n"@,
        StageOutput::Nothing => ") {\n"@ + fragment_start_piece(g, p) + "}\n"@,
    }
}

/// The fragment entry, where the stage writes a surface or the graph drops
/// fragments.
pub open spec fn fragment_piece(
    o: CodegenOptionsView,
    g: GeometryInterfaceView,
    p: PartitionsView,
) -> Seq<char> {
    if o.stage.needs_surface() || p.discard is Some {
        fragment_head_piece(o.stage.fragment_entry()@, g) + fragment_end_piece(o, g, p)
    } else {
        Seq::empty()
    }
}

proof fn lemma_fragment_end(
    params: Seq<char>,
    o: CodegenOptionsView,
    g: GeometryInterfaceView,
    p: PartitionsView,
)
    ensures
        (match o.stage.output() {
            StageOutput::Color => assemble::fragment_prologue(
                params + ") -> @location(0) vec4f {\n"@,
                g,
                p,
            ) + "    return "@ + abi::SHADE_SURFACE_FN@ + "("@ + o.material_fn + "("@
                + abi::CONTEXT_VAR@ + assemble::attribute_args(g) + "), "@ + abi::CONTEXT_VAR@
                + ");\n}\n"@,
            StageOutput::GBuffer => {
                let packed = assemble::fragment_prologue(
                    params + ") -> "@ + abi::GBUFFER_STRUCT@ + " {\n"@,
                    g,
                    p,
                ) + "    return "@ + abi::PACK_GBUFFER_FN@ + "("@ + o.material_fn + "("@
                    + abi::CONTEXT_VAR@ + assemble::attribute_args(g) + ")"@;
                (if o.lighting.set.len() > 1 {
                    packed + ", "@ + text::decimal(o.lighting.model as nat) + "u"@
                } else {
                    packed
                }) + ");\n}\n"@
            },
            StageOutput::Nothing => assemble::fragment_prologue(params + ") {\n"@, g, p) + "}\n"@,
        }) == params + fragment_end_piece(o, g, p),
{
    let args = handed_args(g);
    let start = fragment_start_piece(g, p);
    match o.stage.output() {
        StageOutput::Color => {
            lemma_fragment_start(params + ") -> @location(0) vec4f {\n"@, g, p);
            lemma_behind_12(
                params,
                ") -> @location(0) vec4f {\n"@,
                start,
                "    return "@,
                "shade_surface"@,
                "("@,
                o.material_fn,
                "("@,
                "ctx"@,
                args,
                "), "@,
                "ctx"@,
                ");\n}\n"@,
            );
        },
        StageOutput::GBuffer => {
            lemma_fragment_start(params + ") -> "@ + abi::GBUFFER_STRUCT@ + " {\n"@, g, p);
            let packed = params + ") -> "@ + "GBuffer"@ + " {\n"@ + start + "    return "@
                + "pack_gbuffer"@ + "("@ + o.material_fn + "("@ + "ctx"@ + args + ")"@;
            lemma_nothing_more(packed);
            lemma_behind_3(packed, ", "@, text::decimal(o.lighting.model as nat), "u"@);
            let id = if o.lighting.set.len() > 1 {
                ", "@ + text::decimal(o.lighting.model as nat) + "u"@
            } else {
                Seq::empty()
            };
            lemma_behind_14(
                params,
                ") -> "@,
                "GBuffer"@,
                " {\n"@,
                start,
                "    return "@,
                "pack_gbuffer"@,
                "("@,
                o.material_fn,
                "("@,
                "ctx"@,
                args,
                ")"@,
                id,
                ");\n}\n"@,
            );
        },
        StageOutput::Nothing => {
            lemma_fragment_start(params + ") {\n"@, g, p);
            lemma_behind_3(params, ") {\n"@, start, "}\n"@);
        },
    }
}

proof fn lemma_fragment(
    out: Seq<char>,
    o: CodegenOptionsView,
    g: GeometryInterfaceView,
    p: PartitionsView,
)
    ensures
        assemble::fragment_entry_text(out, o, g, p) == out + fragment_piece(o, g, p),
{
    lemma_nothing_more(out);
    if o.stage.needs_surface() || p.discard is Some {
        let entry = o.stage.fragment_entry()@;
        let head = out + "\n@fragment\nfn "@ + entry + "(vertex: "@ + abi::VERTEX_OUT_STRUCT@;
        lemma_nothing_more(head);
        lemma_behind_2(head, ", extra: "@, "MaterialVaryings"@);
        let extra = if asks(g) {
            ", extra: "@ + "MaterialVaryings"@
        } else {
            Seq::empty()
        };
        lemma_behind_5(out, "\n@fragment\nfn "@, entry, "(vertex: "@, "VertexOut"@, extra);
        let params = out + fragment_head_piece(entry, g);
        lemma_fragment_end(params, o, g, p);
        text::lemma_assoc(out, fragment_head_piece(entry, g), fragment_end_piece(o, g, p));
    }
}

/// The entry points of a module.
pub open spec fn entries_piece(
    o: CodegenOptionsView,
    g: GeometryInterfaceView,
    p: PartitionsView,
) -> Seq<char> {
    carriers_piece(g) + (if asks(g) {
        wide_entry_piece(o.vertex_entry, g, p)
    } else {
        plain_entry_piece(o.vertex_entry, p)
    }) + fragment_piece(o, g, p)
}

proof fn lemma_entries(
    out: Seq<char>,
    o: CodegenOptionsView,
    g: GeometryInterfaceView,
    p: PartitionsView,
)
    ensures
        assemble::entry_points(out, o, g, p) == out + entries_piece(o, g, p),
{
    lemma_carriers(out, g);
    let carried = out + carriers_piece(g);
    lemma_plain_entry(carried, o, p);
    lemma_wide_entry(carried, o, g, p);
    let vertex = if asks(g) {
        wide_entry_piece(o.vertex_entry, g, p)
    } else {
        plain_entry_piece(o.vertex_entry, p)
    };
    lemma_fragment(carried + vertex, o, g, p);
    lemma_behind_3(out, carriers_piece(g), vertex, fragment_piece(o, g, p));
}

/// What the functions of a module hold stands in every text that begins with
/// them.
pub(crate) proof fn lemma_functions_further(
    source: Seq<char>,
    out: Seq<char>,
    name: Seq<char>,
    g: GeometryInterfaceView,
    p: PartitionsView,
)
    requires
        text::begins(source, assemble::functions_text(out, name, g, p)),
    ensures
        p.vertex is Some ==> occurs(
            source,
            vertex_piece(
                g,
                p.vertex->0.body,
                p.vertex->0.input("position_offset"@, "vec3f(0.0, 0.0, 0.0)"@),
            ),
        ),
        p.discard is Some ==> occurs(
            source,
            discard_piece(g, p.discard->0.body, p.discard->0.input("discard"@, "false"@)),
        ),
        p.surface is Some ==> occurs(
            source,
            surface_piece(name, g, p.surface->0.body, p.surface->0.inputs),
        ),
        forall|i: int|
            0 <= i < p.varyings.len() && lists::first_where(
                g.computed,
                resources::varying_named((#[trigger] p.varyings[i]).0),
            ) is Some ==> {
                let ty = lists::first_where(
                    g.computed,
                    resources::varying_named(p.varyings[i].0),
                )->0.ty;
                occurs(
                    source,
                    varying_piece(
                        g,
                        p.varyings[i].0,
                        ty,
                        p.varyings[i].1.body,
                        p.varyings[i].1.input("value"@, assemble::zero_literal(ty)),
                    ),
                )
            },
{
    let functions = assemble::functions_text(out, name, g, p);
    lemma_functions(out, name, g, p);
    assert forall|piece: Seq<char>| #[trigger] occurs(functions, piece) implies occurs(
        source,
        piece,
    ) by {
        let before = choose|before: Seq<char>| text::begins(functions, #[trigger] (before + piece));
        text::lemma_begins_across(before + piece, functions, source);
    }
}

/// What a module's text holds, given its partitions.
pub(crate) proof fn lemma_module(
    name: Seq<char>,
    macros: Map<Seq<char>, MacroValue>,
    o: CodegenOptionsView,
    m: MaterialInterfaceView,
    imports: Imports,
    lighting: Seq<char>,
    p: PartitionsView,
)
    requires
        values_only(m),
    ensures
        ({
            let source = assemble::module_text(name, macros, o, m, imports, lighting, p);
            let declared = assemble::declarations(
                assemble::macros_text(
                    assemble::imports_text(
                        assemble::module_head(name, macros),
                        imports,
                        textmap::in_order(imports.dom()),
                        textmap::in_order(imports.dom()).len() as int,
                    ),
                    macros,
                    textmap::in_order(macros.dom()),
                    textmap::in_order(macros.dom()).len() as int,
                ),
                m,
            );
            let functions = assemble::functions_text(declared, o.material_fn, m.geometry, p);
            &&& text::begins(source, functions)
            &&& text::begins(
                source,
                assemble::macros_text(
                    assemble::imports_text(
                        assemble::module_head(name, macros),
                        imports,
                        textmap::in_order(imports.dom()),
                        textmap::in_order(imports.dom()).len() as int,
                    ),
                    macros,
                    textmap::in_order(macros.dom()),
                    textmap::in_order(macros.dom()).len() as int,
                ),
            )
            &&& occurs(source, declared_piece(m))
            &&& lighting.len() > 0 ==> occurs(source, lighting)
            &&& o.emit_entry_points ==> exists|before: Seq<char>|
                source == #[trigger] (before + entries_piece(o, m.geometry, p))
        }),
{
    broadcast use {text::lemma_begins_further, text::lemma_begins_itself};

    let source = assemble::module_text(name, macros, o, m, imports, lighting, p);
    let before = assemble::macros_text(
        assemble::imports_text(
            assemble::module_head(name, macros),
            imports,
            textmap::in_order(imports.dom()),
            textmap::in_order(imports.dom()).len() as int,
        ),
        macros,
        textmap::in_order(macros.dom()),
        textmap::in_order(macros.dom()).len() as int,
    );
    let declared = assemble::declarations(before, m);
    lemma_declared(before, m);
    let functions = assemble::functions_text(declared, o.material_fn, m.geometry, p);
    lemma_functions(declared, o.material_fn, m.geometry, p);
    let lit = if lighting.len() > 0 {
        functions + "\n"@ + lighting
    } else {
        functions
    };
    assert(text::begins(lit, functions));
    lemma_entries(lit, o, m.geometry, p);
    assert(text::begins(source, lit));
    text::lemma_begins_across(functions, lit, source);
    text::lemma_begins_across(declared, functions, source);
    text::lemma_begins_across(before, declared, source);
    lemma_occurs(source, before, declared_piece(m));
    if lighting.len() > 0 {
        lemma_occurs(source, functions + "\n"@, lighting);
    }
}

} // verus!
