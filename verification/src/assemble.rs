//! The source of a generated module: what it declares, its functions and its
//! entry points.

use vstd::prelude::*;

use crate::abi;
use crate::abi::StageOutput;
use crate::codegen::{CodegenOptions, CodegenOptionsView};
use crate::copies::clone_vec;
use crate::error;
use crate::error::push_names;
use crate::expr::{ImportItems, Imports};
use crate::lists;
use crate::literal;
use crate::macros;
use crate::macros::{bool_string, MacroSet, MacroValue};
use crate::partition::{Partition, PartitionView};
use crate::resources;
use crate::resources::{
    GeometryInterface, GeometryInterfaceView, MaterialInterface, MaterialInterfaceView,
    ResourceBindingView, VaryingBinding, VaryingBindingView, VertexAttributeBinding,
    VertexAttributeBindingView,
};
use crate::sorting;
use crate::sorting::sort_stable;
use crate::text;
use crate::text::{is_text_less, push_number, same_text, signed_decimal_text};
use crate::textmap;
use crate::textmap::TextMap;
use crate::value;
use crate::value::ValueType;
use crate::wxsl;
use crate::wxsl::WxslIdent;

verus! {

/// The partitions that a module is made of.
#[verifier::ext_equal]
pub struct PartitionsView {
    /// The interpolants that the vertex stage computes, by name.
    pub varyings: Seq<(Seq<char>, PartitionView)>,
    /// What a vertex is displaced by.
    pub vertex: Option<PartitionView>,
    /// The surface.
    pub surface: Option<PartitionView>,
    /// Whether a fragment is dropped.
    pub discard: Option<PartitionView>,
}

/// The partitions that a module is made of.
#[derive(Debug)]
pub struct Partitions {
    /// The interpolants that the vertex stage computes, by name.
    pub varyings: Vec<(WxslIdent, Partition)>,
    /// What a vertex is displaced by.
    pub vertex: Option<Partition>,
    /// The surface.
    pub surface: Option<Partition>,
    /// Whether a fragment is dropped.
    pub discard: Option<Partition>,
}

impl View for Partitions {
    type V = PartitionsView;

    open spec fn view(&self) -> PartitionsView {
        PartitionsView {
            varyings: text::seq_of(self.varyings@),
            vertex: text::opt_of(self.vertex),
            surface: text::opt_of(self.surface),
            discard: text::opt_of(self.discard),
        }
    }
}

/// Whether nothing is asked of the geometry.
pub open spec fn asks_nothing(g: GeometryInterfaceView) -> bool {
    g.vertex.len() == 0 && g.instance.fields.len() == 0 && g.computed.len() == 0
}

// ---------------------------------------------------------------------------
// Declarations

/// The fields of the first `n` per-vertex attributes.
pub open spec fn attribute_fields(
    out: Seq<char>,
    s: Seq<VertexAttributeBindingView>,
    n: int,
) -> Seq<char>
    decreases n,
{
    if n <= 0 {
        out
    } else {
        attribute_fields(out, s, n - 1) + "    "@ + s[n - 1].name + ": "@
            + s[n - 1].ty.wxsl_type()@ + ",\n"@
    }
}

/// The fields of the first `n` interpolants.
pub open spec fn varying_fields(out: Seq<char>, s: Seq<VaryingBindingView>, n: int) -> Seq<char>
    decreases n,
{
    if n <= 0 {
        out
    } else {
        varying_fields(out, s, n - 1) + "    "@ + s[n - 1].name + ": "@
            + s[n - 1].ty.wxsl_type()@ + ",\n"@
    }
}

/// What the geometry supplies: the struct that the material function receives
/// it in, and the array of what each instance carries.
pub open spec fn geometry_declared(out: Seq<char>, g: GeometryInterfaceView) -> Seq<char> {
    if asks_nothing(g) {
        out
    } else {
        let head = out + "struct "@ + abi::MATERIAL_ATTRIBUTES_STRUCT@ + " {\n"@;
        let index = if g.instance_index_location is Some {
            head + "    "@ + abi::INSTANCE_INDEX_FIELD@ + ": u32,\n"@
        } else {
            head
        };
        let fields = varying_fields(
            attribute_fields(index, g.vertex, g.vertex.len() as int),
            g.computed,
            g.computed.len() as int,
        ) + "}\n"@;
        if g.instance_index_location is Some {
            fields + resources::struct_text(g.instance, abi::MATERIAL_INSTANCE_STRUCT@)
                + "@group("@ + text::decimal(abi::GROUP_FRAME as nat) + ") @binding("@
                + text::decimal(abi::BINDING_INSTANCE_ATTRIBUTES as nat) + ") var<storage, read> "@
                + abi::MATERIAL_INSTANCE_VAR@ + ": array<"@ + abi::MATERIAL_INSTANCE_STRUCT@
                + ">;\n"@
        } else {
            fields
        }
    }
}

/// The variables of the first `n` textures and samplers.
pub open spec fn resources_declared(out: Seq<char>, s: Seq<ResourceBindingView>, n: int) -> Seq<char>
    decreases n,
{
    if n <= 0 {
        out
    } else {
        resources_declared(out, s, n - 1) + "@group("@
            + text::decimal(abi::GROUP_MATERIAL as nat) + ") @binding("@
            + text::decimal(s[n - 1].binding as nat) + ") var "@ + s[n - 1].name + ": "@
            + s[n - 1].ty.wxsl_type()@ + ";\n"@
    }
}

/// What the module needs bound: the material's own group, the application's
/// block, and what the geometry supplies.
pub open spec fn declarations(out: Seq<char>, m: MaterialInterfaceView) -> Seq<char> {
    if m.params.fields.len() == 0 && m.resources.len() == 0 && m.user is None && asks_nothing(
        m.geometry,
    ) {
        out
    } else {
        let start = out + "\n"@;
        let params = if m.params.fields.len() > 0 {
            start + resources::struct_text(m.params, abi::MATERIAL_PARAMS_STRUCT@) + "@group("@
                + text::decimal(abi::GROUP_MATERIAL as nat) + ") @binding("@
                + text::decimal(abi::BINDING_MATERIAL_PARAMS as nat) + ") var<uniform> "@
                + abi::MATERIAL_PARAMS_VAR@ + ": "@ + abi::MATERIAL_PARAMS_STRUCT@ + ";\n"@
        } else {
            start
        };
        let group = resources_declared(params, m.resources, m.resources.len() as int);
        geometry_declared(
            match m.user {
                Some(user) => group + resources::struct_text(user.layout, user.struct_name)
                    + "@group("@ + text::decimal(abi::GROUP_USER as nat) + ") @binding("@
                    + text::decimal(abi::BINDING_USER_BLOCK as nat) + ") var<uniform> "@ + user.name
                    + ": "@ + user.struct_name + ";\n"@,
                None => group,
            },
            m.geometry,
        )
    }
}

fn push_attribute_fields(out: &mut String, s: &Vec<VertexAttributeBinding>)
    ensures
        final(out)@ == attribute_fields(old(out)@, text::seq_of(s@), s@.len() as int),
{
    let ghost start = out@;
    let ghost t = text::seq_of(s@);
    let mut i: usize = 0;
    while i < s.len()
        invariant
            i <= t.len() == s@.len(),
            t == text::seq_of(s@),
            out@ == attribute_fields(start, t, i as int),
        decreases t.len() - i,
    {
        assert(t[i as int] == s@[i as int]@);
        out.append("    ");
        out.append(s[i].name.as_str());
        out.append(": ");
        out.append(s[i].ty.wxsl_type());
        out.append(",\n");
        i += 1;
    }
}

fn push_varying_fields(out: &mut String, s: &Vec<VaryingBinding>)
    ensures
        final(out)@ == varying_fields(old(out)@, text::seq_of(s@), s@.len() as int),
{
    let ghost start = out@;
    let ghost t = text::seq_of(s@);
    let mut i: usize = 0;
    while i < s.len()
        invariant
            i <= t.len() == s@.len(),
            t == text::seq_of(s@),
            out@ == varying_fields(start, t, i as int),
        decreases t.len() - i,
    {
        assert(t[i as int] == s@[i as int]@);
        out.append("    ");
        out.append(s[i].name.as_str());
        out.append(": ");
        out.append(s[i].ty.wxsl_type());
        out.append(",\n");
        i += 1;
    }
}

/// Write what the geometry supplies.
fn write_geometry_declarations(out: &mut String, geometry: &GeometryInterface)
    ensures
        final(out)@ == geometry_declared(old(out)@, geometry@),
{
    if geometry.is_empty() {
        return;
    }
    out.append("struct ");
    out.append(abi::MATERIAL_ATTRIBUTES_STRUCT);
    out.append(" {\n");
    if geometry.instance_index_location().is_some() {
        out.append("    ");
        out.append(abi::INSTANCE_INDEX_FIELD);
        out.append(": u32,\n");
    }
    push_attribute_fields(out, geometry.vertex());
    push_varying_fields(out, geometry.computed());
    out.append("}\n");
    if geometry.instance_index_location().is_some() {
        out.append(geometry.instance().wgsl_struct(abi::MATERIAL_INSTANCE_STRUCT).as_str());
        out.append("@group(");
        push_number(out, abi::GROUP_FRAME as u64);
        out.append(") @binding(");
        push_number(out, abi::BINDING_INSTANCE_ATTRIBUTES as u64);
        out.append(") var<storage, read> ");
        out.append(abi::MATERIAL_INSTANCE_VAR);
        out.append(": array<");
        out.append(abi::MATERIAL_INSTANCE_STRUCT);
        out.append(">;\n");
    }
}

/// Write what the module needs bound.
fn write_declarations(out: &mut String, interface: &MaterialInterface)
    ensures
        final(out)@ == declarations(old(out)@, interface@),
{
    if interface.material_group_is_empty() && interface.user.is_none()
        && interface.geometry.is_empty() {
        return;
    }
    out.append("\n");
    if !interface.params.is_empty() {
        out.append(interface.params.wgsl_struct(abi::MATERIAL_PARAMS_STRUCT).as_str());
        out.append("@group(");
        push_number(out, abi::GROUP_MATERIAL as u64);
        out.append(") @binding(");
        push_number(out, abi::BINDING_MATERIAL_PARAMS as u64);
        out.append(") var<uniform> ");
        out.append(abi::MATERIAL_PARAMS_VAR);
        out.append(": ");
        out.append(abi::MATERIAL_PARAMS_STRUCT);
        out.append(";\n");
    }
    let ghost start = out@;
    let resources = &interface.resources;
    let ghost s = text::seq_of(resources@);
    let mut i: usize = 0;
    while i < resources.len()
        invariant
            i <= s.len() == resources@.len(),
            s == text::seq_of(resources@),
            out@ == resources_declared(start, s, i as int),
        decreases s.len() - i,
    {
        assert(s[i as int] == resources@[i as int]@);
        out.append("@group(");
        push_number(out, abi::GROUP_MATERIAL as u64);
        out.append(") @binding(");
        push_number(out, resources[i].binding as u64);
        out.append(") var ");
        out.append(resources[i].name.as_str());
        out.append(": ");
        out.append(resources[i].ty.wxsl_type());
        out.append(";\n");
        i += 1;
    }
    match &interface.user {
        Some(user) => {
            out.append(user.layout.wgsl_struct(user.struct_name.as_str()).as_str());
            out.append("@group(");
            push_number(out, abi::GROUP_USER as u64);
            out.append(") @binding(");
            push_number(out, abi::BINDING_USER_BLOCK as u64);
            out.append(") var<uniform> ");
            out.append(user.name.as_str());
            out.append(": ");
            out.append(user.struct_name.as_str());
            out.append(";\n");
        },
        None => {},
    }
    write_geometry_declarations(out, &interface.geometry);
}

// ---------------------------------------------------------------------------
// Entry points

/// Where the first `n` per-vertex attributes travel.
pub open spec fn travelling_attributes(
    out: Seq<char>,
    s: Seq<VertexAttributeBindingView>,
    n: int,
) -> Seq<char>
    decreases n,
{
    if n <= 0 {
        out
    } else {
        travelling_attributes(out, s, n - 1) + "    @location("@
            + text::decimal(s[n - 1].varying as nat) + ") "@ + s[n - 1].name + ": "@
            + s[n - 1].ty.wxsl_type()@ + ",\n"@
    }
}

/// Where the first `n` interpolants travel.
pub open spec fn travelling_varyings(out: Seq<char>, s: Seq<VaryingBindingView>, n: int) -> Seq<char>
    decreases n,
{
    if n <= 0 {
        out
    } else {
        travelling_varyings(out, s, n - 1) + "    @location("@
            + text::decimal(s[n - 1].varying as nat) + ") "@ + s[n - 1].name + ": "@
            + s[n - 1].ty.wxsl_type()@ + ",\n"@
    }
}

/// What travels to the fragment stage beside the shading basis.
pub open spec fn travelling(out: Seq<char>, g: GeometryInterfaceView) -> Seq<char> {
    travelling_varyings(
        travelling_attributes(
            match g.instance_index_location {
                Some(location) => out + "    @location("@
                    + text::decimal(location as nat) + ") @interpolate(flat) "@
                    + abi::INSTANCE_INDEX_FIELD@ + ": u32,\n"@,
                None => out,
            },
            g.vertex,
            g.vertex.len() as int,
        ),
        g.computed,
        g.computed.len() as int,
    )
}

/// Where the vertex entry takes the first `n` per-vertex attributes.
pub open spec fn arriving(out: Seq<char>, s: Seq<VertexAttributeBindingView>, n: int) -> Seq<char>
    decreases n,
{
    if n <= 0 {
        out
    } else {
        arriving(out, s, n - 1) + "    @location("@ + text::decimal(s[n - 1].location as nat)
            + ") "@ + s[n - 1].name + ": "@ + s[n - 1].ty.wxsl_type()@ + ",\n"@
    }
}

/// The first `n` fields of the shading basis, by location.
pub open spec fn basis_fields(out: Seq<char>, n: int) -> Seq<char>
    decreases n,
{
    if n <= 0 {
        out
    } else {
        basis_fields(out, n - 1) + "    @location("@ + text::decimal((n - 1) as nat)
            + ") "@ + abi::vertex_out_fields()@[n - 1].name@ + ": "@
            + abi::vertex_out_fields()@[n - 1].ty.wxsl_type()@ + ",\n"@
    }
}

/// The structs that carry a material's own attributes between the stages.
pub open spec fn carriers(out: Seq<char>, g: GeometryInterfaceView) -> Seq<char> {
    if asks_nothing(g) {
        out
    } else {
        let start = out + "\n"@;
        let input = if g.vertex.len() > 0 {
            arriving(start + "struct "@
                + abi::MATERIAL_VERTEX_IN_STRUCT@ + " {\n"@, g.vertex, g.vertex.len() as int) + "}\n"@
        } else {
            start
        };
        let output = travelling(
            basis_fields(input + "struct "@
                + abi::MATERIAL_VERTEX_OUT_STRUCT@ + " {\n    @builtin(position) "@
                + abi::CLIP_POSITION_FIELD@ + ": vec4f,\n"@, abi::VERTEX_OUT_COUNT as int),
            g,
        ) + "}\n"@;
        travelling(output + "struct "@ + abi::MATERIAL_VARYINGS_STRUCT@
            + " {\n"@, g) + "}\n"@
    }
}

fn push_travelling(out: &mut String, geometry: &GeometryInterface)
    ensures
        final(out)@ == travelling(old(out)@, geometry@),
{
    match geometry.instance_index_location() {
        Some(location) => {
            out.append("    @location(");
            push_number(out, location as u64);
            out.append(") @interpolate(flat) ");
            out.append(abi::INSTANCE_INDEX_FIELD);
            out.append(": u32,\n");
        },
        None => {},
    }
    push_travelling_attributes(out, geometry.vertex());
    push_travelling_varyings(out, geometry.computed());
}

fn push_travelling_attributes(out: &mut String, s: &Vec<VertexAttributeBinding>)
    ensures
        final(out)@ == travelling_attributes(old(out)@, text::seq_of(s@), s@.len() as int),
{
    let ghost start = out@;
    let ghost t = text::seq_of(s@);
    let mut i: usize = 0;
    while i < s.len()
        invariant
            i <= t.len() == s@.len(),
            t == text::seq_of(s@),
            out@ == travelling_attributes(start, t, i as int),
        decreases t.len() - i,
    {
        assert(t[i as int] == s@[i as int]@);
        out.append("    @location(");
        push_number(out, s[i].varying as u64);
        out.append(") ");
        out.append(s[i].name.as_str());
        out.append(": ");
        out.append(s[i].ty.wxsl_type());
        out.append(",\n");
        i += 1;
    }
}

fn push_travelling_varyings(out: &mut String, s: &Vec<VaryingBinding>)
    ensures
        final(out)@ == travelling_varyings(old(out)@, text::seq_of(s@), s@.len() as int),
{
    let ghost start = out@;
    let ghost t = text::seq_of(s@);
    let mut i: usize = 0;
    while i < s.len()
        invariant
            i <= t.len() == s@.len(),
            t == text::seq_of(s@),
            out@ == travelling_varyings(start, t, i as int),
        decreases t.len() - i,
    {
        assert(t[i as int] == s@[i as int]@);
        out.append("    @location(");
        push_number(out, s[i].varying as u64);
        out.append(") ");
        out.append(s[i].name.as_str());
        out.append(": ");
        out.append(s[i].ty.wxsl_type());
        out.append(",\n");
        i += 1;
    }
}

fn push_arriving(out: &mut String, s: &Vec<VertexAttributeBinding>)
    ensures
        final(out)@ == arriving(old(out)@, text::seq_of(s@), s@.len() as int),
{
    let ghost start = out@;
    let ghost t = text::seq_of(s@);
    let mut i: usize = 0;
    while i < s.len()
        invariant
            i <= t.len() == s@.len(),
            t == text::seq_of(s@),
            out@ == arriving(start, t, i as int),
        decreases t.len() - i,
    {
        assert(t[i as int] == s@[i as int]@);
        out.append("    @location(");
        push_number(out, s[i].location as u64);
        out.append(") ");
        out.append(s[i].name.as_str());
        out.append(": ");
        out.append(s[i].ty.wxsl_type());
        out.append(",\n");
        i += 1;
    }
}

fn push_basis_fields(out: &mut String)
    ensures
        final(out)@ == basis_fields(old(out)@, abi::VERTEX_OUT_COUNT as int),
{
    let ghost start = out@;
    let fields = abi::vertex_out_fields();
    let mut i: usize = 0;
    while i < abi::VERTEX_OUT_COUNT
        invariant
            i <= abi::VERTEX_OUT_COUNT,
            fields@ == abi::vertex_out_fields()@,
            out@ == basis_fields(start, i as int),
        decreases abi::VERTEX_OUT_COUNT - i,
    {
        out.append("    @location(");
        push_number(out, i as u64);
        out.append(") ");
        out.append(fields[i].name);
        out.append(": ");
        out.append(fields[i].ty.wxsl_type());
        out.append(",\n");
        i += 1;
    }
}

/// Write the structs that carry a material's own attributes between the
/// stages.
fn write_geometry_io(out: &mut String, geometry: &GeometryInterface)
    ensures
        final(out)@ == carriers(old(out)@, geometry@),
{
    if geometry.is_empty() {
        return;
    }
    out.append("\n");
    if geometry.vertex().len() > 0 {
        out.append("struct ");
        out.append(abi::MATERIAL_VERTEX_IN_STRUCT);
        out.append(" {\n");
        push_arriving(out, geometry.vertex());
        out.append("}\n");
    }
    out.append("struct ");
    out.append(abi::MATERIAL_VERTEX_OUT_STRUCT);
    out.append(" {\n    @builtin(position) ");
    out.append(abi::CLIP_POSITION_FIELD);
    out.append(": vec4f,\n");
    push_basis_fields(out);
    push_travelling(out, geometry);
    out.append("}\n");
    out.append("struct ");
    out.append(abi::MATERIAL_VARYINGS_STRUCT);
    out.append(" {\n");
    push_travelling(out, geometry);
    out.append("}\n");
}

/// Whether the vertex entry reads its context.
pub open spec fn reads_context(p: PartitionsView) -> bool {
    p.vertex is Some || p.varyings.len() > 0
}

/// The vertex entry's context, where anything reads it.
pub open spec fn context_bound(out: Seq<char>, p: PartitionsView) -> Seq<char> {
    if reads_context(p) {
        out + "    let "@ + abi::VERTEX_CONTEXT_VAR@ + " = "@ + abi::VERTEX_CONTEXT_FN@
            + "(input);\n"@
    } else {
        out
    }
}

/// How the vertex entry transforms a vertex: by what the graph computes, or
/// plainly.
pub open spec fn transformed(out: Seq<char>, displaces: bool, args: Seq<char>) -> Seq<char> {
    if displaces {
        out + abi::TRANSFORM_VERTEX_OFFSET_FN@ + "(input, "@ + abi::VERTEX_FN@ + "("@
            + abi::VERTEX_CONTEXT_VAR@ + args + "))"@
    } else {
        out + abi::TRANSFORM_VERTEX_FN@ + "(input)"@
    }
}

/// The vertex entry of a material that asks nothing of its geometry.
pub open spec fn plain_vertex_entry(out: Seq<char>, o: CodegenOptionsView, p: PartitionsView) -> Seq<
    char,
> {
    transformed(
        context_bound(out + "\n@vertex\nfn "@
            + o.vertex_entry + "(input: "@ + abi::VERTEX_IN_STRUCT@ + ") -> "@
            + abi::VERTEX_OUT_STRUCT@ + " {\n"@, p) + "    return "@,
        p.vertex is Some,
        ""@,
    ) + ";\n}\n"@
}

/// The first `n` per-vertex attributes copied into the attributes.
pub open spec fn attributes_copied(
    out: Seq<char>,
    s: Seq<VertexAttributeBindingView>,
    n: int,
) -> Seq<char>
    decreases n,
{
    if n <= 0 {
        out
    } else {
        attributes_copied(out, s, n - 1) + "    "@ + abi::MATERIAL_ATTRIBUTES_VAR@
            + "."@ + s[n - 1].name + " = extra."@ + s[n - 1].name + ";\n"@
    }
}

/// The first `n` interpolants copied into the attributes.
pub open spec fn varyings_copied(out: Seq<char>, s: Seq<VaryingBindingView>, n: int) -> Seq<char>
    decreases n,
{
    if n <= 0 {
        out
    } else {
        varyings_copied(out, s, n - 1) + "    "@ + abi::MATERIAL_ATTRIBUTES_VAR@
            + "."@ + s[n - 1].name + " = extra."@ + s[n - 1].name + ";\n"@
    }
}

/// The attributes as the vertex entry has them, where anything reads them.
pub open spec fn attributes_bound(
    out: Seq<char>,
    g: GeometryInterfaceView,
    p: PartitionsView,
) -> Seq<char> {
    if reads_context(p) {
        let declared = out + "    var "@ + abi::MATERIAL_ATTRIBUTES_VAR@ + ": "@
            + abi::MATERIAL_ATTRIBUTES_STRUCT@ + ";\n"@;
        attributes_copied(
            if g.instance_index_location is Some {
                declared + "    "@ + abi::MATERIAL_ATTRIBUTES_VAR@ + "."@
                    + abi::INSTANCE_INDEX_FIELD@ + " = input.instance;\n"@
            } else {
                declared
            },
            g.vertex,
            g.vertex.len() as int,
        )
    } else {
        out
    }
}

/// The first `n` fields of the shading basis handed on.
pub open spec fn basis_handed(out: Seq<char>, n: int) -> Seq<char>
    decreases n,
{
    if n <= 0 {
        out
    } else {
        basis_handed(out, n - 1) + "    out."@
            + abi::vertex_out_fields()@[n - 1].name@ + " = base."@
            + abi::vertex_out_fields()@[n - 1].name@ + ";\n"@
    }
}

/// The first `n` per-vertex attributes handed on.
pub open spec fn attributes_handed(
    out: Seq<char>,
    s: Seq<VertexAttributeBindingView>,
    n: int,
) -> Seq<char>
    decreases n,
{
    if n <= 0 {
        out
    } else {
        attributes_handed(out, s, n - 1) + "    out."@ + s[n - 1].name + " = extra."@
            + s[n - 1].name + ";\n"@
    }
}

/// The first `n` interpolants computed.
pub open spec fn varyings_computed(
    out: Seq<char>,
    s: Seq<(Seq<char>, PartitionView)>,
    n: int,
) -> Seq<char>
    decreases n,
{
    if n <= 0 {
        out
    } else {
        varyings_computed(out, s, n - 1) + "    out."@ + s[n - 1].0 + " = "@
            + abi::VARYING_FN_PREFIX@ + s[n - 1].0 + "("@ + abi::VERTEX_CONTEXT_VAR@ + ", "@
            + abi::MATERIAL_ATTRIBUTES_VAR@ + ");\n"@
    }
}

/// The vertex entry of a material that asks something of its geometry.
pub open spec fn wide_vertex_entry(
    out: Seq<char>,
    o: CodegenOptionsView,
    g: GeometryInterfaceView,
    p: PartitionsView,
) -> Seq<char> {
    let head = out + "\n@vertex\nfn "@ + o.vertex_entry + "(input: "@
        + abi::VERTEX_IN_STRUCT@;
    let params = if g.vertex.len() > 0 {
        head + ", extra: "@ + abi::MATERIAL_VERTEX_IN_STRUCT@
    } else {
        head
    };
    let base = transformed(
        context_bound(attributes_bound(params
            + ") -> "@ + abi::MATERIAL_VERTEX_OUT_STRUCT@ + " {\n"@, g, p), p) + "    let base = "@,
        p.vertex is Some,
        ", "@ + abi::MATERIAL_ATTRIBUTES_VAR@,
    ) + ";\n    var out: "@ + abi::MATERIAL_VERTEX_OUT_STRUCT@ + ";\n    out."@
        + abi::CLIP_POSITION_FIELD@ + " = base."@ + abi::CLIP_POSITION_FIELD@ + ";\n"@;
    let basis = basis_handed(base, abi::VERTEX_OUT_COUNT as int);
    varyings_computed(
        attributes_handed(
            if g.instance_index_location is Some {
                basis + "    out."@ + abi::INSTANCE_INDEX_FIELD@
                    + " = input.instance;\n"@
            } else {
                basis
            },
            g.vertex,
            g.vertex.len() as int,
        ),
        p.varyings,
        p.varyings.len() as int,
    ) + "    return out;\n}\n"@
}

/// The attributes as the fragment entry has them.
pub open spec fn attributes_unpacked(out: Seq<char>, g: GeometryInterfaceView) -> Seq<char> {
    if asks_nothing(g) {
        out
    } else {
        let declared = out + "    var "@ + abi::MATERIAL_ATTRIBUTES_VAR@ + ": "@
            + abi::MATERIAL_ATTRIBUTES_STRUCT@ + ";\n"@;
        varyings_copied(
            attributes_copied(
                if g.instance_index_location is Some {
                    declared + "    "@ + abi::MATERIAL_ATTRIBUTES_VAR@ + "."@
                        + abi::INSTANCE_INDEX_FIELD@ + " = extra."@ + abi::INSTANCE_INDEX_FIELD@
                        + ";\n"@
                } else {
                    declared
                },
                g.vertex,
                g.vertex.len() as int,
            ),
            g.computed,
            g.computed.len() as int,
        )
    }
}

/// What the material's functions take after the context.
pub open spec fn attribute_args(g: GeometryInterfaceView) -> Seq<char> {
    if asks_nothing(g) {
        ""@
    } else {
        ", "@ + abi::MATERIAL_ATTRIBUTES_VAR@
    }
}

/// What the fragment entry does before it writes: it unpacks the attributes
/// and drops what is to be dropped.
pub open spec fn fragment_prologue(
    out: Seq<char>,
    g: GeometryInterfaceView,
    p: PartitionsView,
) -> Seq<char> {
    let unpacked = attributes_unpacked(out + "    let "@ + abi::CONTEXT_VAR@
        + " = "@ + abi::SURFACE_CONTEXT_FN@ + "(vertex);\n"@, g);
    if p.discard is Some {
        unpacked + "    if "@ + abi::DISCARD_FN@ + "("@ + abi::CONTEXT_VAR@
            + attribute_args(g) + ") {\n        discard;\n    }\n"@
    } else {
        unpacked
    }
}

/// The fragment entry, where the stage has one: it shades, fills the G-buffer,
/// or only drops fragments.
pub open spec fn fragment_entry_text(
    out: Seq<char>,
    o: CodegenOptionsView,
    g: GeometryInterfaceView,
    p: PartitionsView,
) -> Seq<char> {
    if !o.stage.needs_surface() && p.discard is None {
        out
    } else {
        let head = out + "\n@fragment\nfn "@ + o.stage.fragment_entry()@ + "(vertex: "@
            + abi::VERTEX_OUT_STRUCT@;
        let params = if asks_nothing(g) {
            head
        } else {
            head + ", extra: "@ + abi::MATERIAL_VARYINGS_STRUCT@
        };
        match o.stage.output() {
            StageOutput::Color => fragment_prologue(
                params + ") -> @location(0) vec4f {\n"@,
                g,
                p,
            ) + "    return "@ + abi::SHADE_SURFACE_FN@ + "("@ + o.material_fn + "("@
                + abi::CONTEXT_VAR@ + attribute_args(g) + "), "@ + abi::CONTEXT_VAR@
                + ");\n}\n"@,
            StageOutput::GBuffer => {
                let packed = fragment_prologue(params + ") -> "@
                    + abi::GBUFFER_STRUCT@ + " {\n"@, g, p) + "    return "@
                    + abi::PACK_GBUFFER_FN@ + "("@ + o.material_fn + "("@ + abi::CONTEXT_VAR@
                    + attribute_args(g) + ")"@;
                (if o.lighting.set.len() > 1 {
                    packed + ", "@ + text::decimal(o.lighting.model as nat) + "u"@
                } else {
                    packed
                }) + ");\n}\n"@
            },
            StageOutput::Nothing => fragment_prologue(params + ") {\n"@, g, p) + "}\n"@,
        }
    }
}

/// The entry points of a module.
pub open spec fn entry_points(
    out: Seq<char>,
    o: CodegenOptionsView,
    g: GeometryInterfaceView,
    p: PartitionsView,
) -> Seq<char> {
    let carried = carriers(out, g);
    fragment_entry_text(
        if asks_nothing(g) {
            plain_vertex_entry(carried, o, p)
        } else {
            wide_vertex_entry(carried, o, g, p)
        },
        o,
        g,
        p,
    )
}

fn needs_context(parts: &Partitions) -> (r: bool)
    ensures
        r == reads_context(parts@),
{
    assert(text::seq_of(parts.varyings@).len() == parts.varyings@.len());
    parts.vertex.is_some() || parts.varyings.len() > 0
}

fn push_context(out: &mut String, parts: &Partitions)
    ensures
        final(out)@ == context_bound(old(out)@, parts@),
{
    if needs_context(parts) {
        out.append("    let ");
        out.append(abi::VERTEX_CONTEXT_VAR);
        out.append(" = ");
        out.append(abi::VERTEX_CONTEXT_FN);
        out.append("(input);\n");
    }
}

fn push_transformed(out: &mut String, displaces: bool, args: &str)
    ensures
        final(out)@ == transformed(old(out)@, displaces, args@),
{
    if displaces {
        out.append(abi::TRANSFORM_VERTEX_OFFSET_FN);
        out.append("(input, ");
        out.append(abi::VERTEX_FN);
        out.append("(");
        out.append(abi::VERTEX_CONTEXT_VAR);
        out.append(args);
        out.append("))");
    } else {
        out.append(abi::TRANSFORM_VERTEX_FN);
        out.append("(input)");
    }
}

fn push_attributes_copied(out: &mut String, s: &Vec<VertexAttributeBinding>)
    ensures
        final(out)@ == attributes_copied(old(out)@, text::seq_of(s@), s@.len() as int),
{
    let ghost start = out@;
    let ghost t = text::seq_of(s@);
    let mut i: usize = 0;
    while i < s.len()
        invariant
            i <= t.len() == s@.len(),
            t == text::seq_of(s@),
            out@ == attributes_copied(start, t, i as int),
        decreases t.len() - i,
    {
        assert(t[i as int] == s@[i as int]@);
        out.append("    ");
        out.append(abi::MATERIAL_ATTRIBUTES_VAR);
        out.append(".");
        out.append(s[i].name.as_str());
        out.append(" = extra.");
        out.append(s[i].name.as_str());
        out.append(";\n");
        i += 1;
    }
}

fn push_varyings_copied(out: &mut String, s: &Vec<VaryingBinding>)
    ensures
        final(out)@ == varyings_copied(old(out)@, text::seq_of(s@), s@.len() as int),
{
    let ghost start = out@;
    let ghost t = text::seq_of(s@);
    let mut i: usize = 0;
    while i < s.len()
        invariant
            i <= t.len() == s@.len(),
            t == text::seq_of(s@),
            out@ == varyings_copied(start, t, i as int),
        decreases t.len() - i,
    {
        assert(t[i as int] == s@[i as int]@);
        out.append("    ");
        out.append(abi::MATERIAL_ATTRIBUTES_VAR);
        out.append(".");
        out.append(s[i].name.as_str());
        out.append(" = extra.");
        out.append(s[i].name.as_str());
        out.append(";\n");
        i += 1;
    }
}

fn push_attributes_handed(out: &mut String, s: &Vec<VertexAttributeBinding>)
    ensures
        final(out)@ == attributes_handed(old(out)@, text::seq_of(s@), s@.len() as int),
{
    let ghost start = out@;
    let ghost t = text::seq_of(s@);
    let mut i: usize = 0;
    while i < s.len()
        invariant
            i <= t.len() == s@.len(),
            t == text::seq_of(s@),
            out@ == attributes_handed(start, t, i as int),
        decreases t.len() - i,
    {
        assert(t[i as int] == s@[i as int]@);
        out.append("    out.");
        out.append(s[i].name.as_str());
        out.append(" = extra.");
        out.append(s[i].name.as_str());
        out.append(";\n");
        i += 1;
    }
}

fn push_basis_handed(out: &mut String)
    ensures
        final(out)@ == basis_handed(old(out)@, abi::VERTEX_OUT_COUNT as int),
{
    let ghost start = out@;
    let fields = abi::vertex_out_fields();
    let mut i: usize = 0;
    while i < abi::VERTEX_OUT_COUNT
        invariant
            i <= abi::VERTEX_OUT_COUNT,
            fields@ == abi::vertex_out_fields()@,
            out@ == basis_handed(start, i as int),
        decreases abi::VERTEX_OUT_COUNT - i,
    {
        out.append("    out.");
        out.append(fields[i].name);
        out.append(" = base.");
        out.append(fields[i].name);
        out.append(";\n");
        i += 1;
    }
}

fn push_varyings_computed(out: &mut String, varyings: &Vec<(WxslIdent, Partition)>)
    ensures
        final(out)@ == varyings_computed(old(out)@, text::seq_of(varyings@), varyings@.len() as int),
{
    let ghost start = out@;
    let ghost t = text::seq_of(varyings@);
    let mut i: usize = 0;
    while i < varyings.len()
        invariant
            i <= t.len() == varyings@.len(),
            t == text::seq_of(varyings@),
            out@ == varyings_computed(start, t, i as int),
        decreases t.len() - i,
    {
        assert(t[i as int] == varyings@[i as int]@);
        out.append("    out.");
        out.append(varyings[i].0.as_str());
        out.append(" = ");
        out.append(abi::VARYING_FN_PREFIX);
        out.append(varyings[i].0.as_str());
        out.append("(");
        out.append(abi::VERTEX_CONTEXT_VAR);
        out.append(", ");
        out.append(abi::MATERIAL_ATTRIBUTES_VAR);
        out.append(");\n");
        i += 1;
    }
}

/// Write the vertex entry of a material that asks something of its geometry.
fn write_wide_vertex_entry(
    out: &mut String,
    options: &CodegenOptions,
    geometry: &GeometryInterface,
    parts: &Partitions,
)
    ensures
        final(out)@ == wide_vertex_entry(old(out)@, options@, geometry@, parts@),
{
    out.append("\n@vertex\nfn ");
    out.append(options.vertex_entry.as_str());
    out.append("(input: ");
    out.append(abi::VERTEX_IN_STRUCT);
    if geometry.vertex().len() > 0 {
        out.append(", extra: ");
        out.append(abi::MATERIAL_VERTEX_IN_STRUCT);
    }
    out.append(") -> ");
    out.append(abi::MATERIAL_VERTEX_OUT_STRUCT);
    out.append(" {\n");
    if needs_context(parts) {
        out.append("    var ");
        out.append(abi::MATERIAL_ATTRIBUTES_VAR);
        out.append(": ");
        out.append(abi::MATERIAL_ATTRIBUTES_STRUCT);
        out.append(";\n");
        if geometry.instance_index_location().is_some() {
            out.append("    ");
            out.append(abi::MATERIAL_ATTRIBUTES_VAR);
            out.append(".");
            out.append(abi::INSTANCE_INDEX_FIELD);
            out.append(" = input.instance;\n");
        }
        push_attributes_copied(out, geometry.vertex());
    }
    push_context(out, parts);
    out.append("    let base = ");
    let mut args = ", ".to_owned();
    args.append(abi::MATERIAL_ATTRIBUTES_VAR);
    push_transformed(out, parts.vertex.is_some(), args.as_str());
    out.append(";\n    var out: ");
    out.append(abi::MATERIAL_VERTEX_OUT_STRUCT);
    out.append(";\n    out.");
    out.append(abi::CLIP_POSITION_FIELD);
    out.append(" = base.");
    out.append(abi::CLIP_POSITION_FIELD);
    out.append(";\n");
    push_basis_handed(out);
    if geometry.instance_index_location().is_some() {
        out.append("    out.");
        out.append(abi::INSTANCE_INDEX_FIELD);
        out.append(" = input.instance;\n");
    }
    push_attributes_handed(out, geometry.vertex());
    push_varyings_computed(out, &parts.varyings);
    out.append("    return out;\n}\n");
}

fn args_for(geometry: &GeometryInterface) -> (r: String)
    ensures
        r@ == attribute_args(geometry@),
{
    if geometry.is_empty() {
        "".to_owned()
    } else {
        let mut args = ", ".to_owned();
        args.append(abi::MATERIAL_ATTRIBUTES_VAR);
        args
    }
}

fn push_fragment_prologue(out: &mut String, geometry: &GeometryInterface, parts: &Partitions)
    ensures
        final(out)@ == fragment_prologue(old(out)@, geometry@, parts@),
{
    let args = args_for(geometry);
    out.append("    let ");
    out.append(abi::CONTEXT_VAR);
    out.append(" = ");
    out.append(abi::SURFACE_CONTEXT_FN);
    out.append("(vertex);\n");
    if !geometry.is_empty() {
        out.append("    var ");
        out.append(abi::MATERIAL_ATTRIBUTES_VAR);
        out.append(": ");
        out.append(abi::MATERIAL_ATTRIBUTES_STRUCT);
        out.append(";\n");
        if geometry.instance_index_location().is_some() {
            out.append("    ");
            out.append(abi::MATERIAL_ATTRIBUTES_VAR);
            out.append(".");
            out.append(abi::INSTANCE_INDEX_FIELD);
            out.append(" = extra.");
            out.append(abi::INSTANCE_INDEX_FIELD);
            out.append(";\n");
        }
        push_attributes_copied(out, geometry.vertex());
        push_varyings_copied(out, geometry.computed());
    }
    if parts.discard.is_some() {
        out.append("    if ");
        out.append(abi::DISCARD_FN);
        out.append("(");
        out.append(abi::CONTEXT_VAR);
        out.append(args.as_str());
        out.append(") {\n        discard;\n    }\n");
    }
}

/// Write the fragment entry, where the stage has one.
fn write_fragment_entry(
    out: &mut String,
    options: &CodegenOptions,
    geometry: &GeometryInterface,
    parts: &Partitions,
)
    ensures
        final(out)@ == fragment_entry_text(old(out)@, options@, geometry@, parts@),
{
    let stage = options.stage;
    if !stage.needs_surface() && parts.discard.is_none() {
        return;
    }
    let args = args_for(geometry);
    out.append("\n@fragment\nfn ");
    out.append(stage.fragment_entry());
    out.append("(vertex: ");
    out.append(abi::VERTEX_OUT_STRUCT);
    if !geometry.is_empty() {
        out.append(", extra: ");
        out.append(abi::MATERIAL_VARYINGS_STRUCT);
    }
    match stage.output() {
        StageOutput::Color => {
            out.append(") -> @location(0) vec4f {\n");
            push_fragment_prologue(out, geometry, parts);
            out.append("    return ");
            out.append(abi::SHADE_SURFACE_FN);
            out.append("(");
            out.append(options.material_fn.as_str());
            out.append("(");
            out.append(abi::CONTEXT_VAR);
            out.append(args.as_str());
            out.append("), ");
            out.append(abi::CONTEXT_VAR);
            out.append(");\n}\n");
        },
        StageOutput::GBuffer => {
            out.append(") -> ");
            out.append(abi::GBUFFER_STRUCT);
            out.append(" {\n");
            push_fragment_prologue(out, geometry, parts);
            out.append("    return ");
            out.append(abi::PACK_GBUFFER_FN);
            out.append("(");
            out.append(options.material_fn.as_str());
            out.append("(");
            out.append(abi::CONTEXT_VAR);
            out.append(args.as_str());
            out.append(")");
            if options.lighting.set().dispatches() {
                out.append(", ");
                push_number(out, options.lighting.model as u64);
                out.append("u");
            }
            out.append(");\n}\n");
        },
        StageOutput::Nothing => {
            out.append(") {\n");
            push_fragment_prologue(out, geometry, parts);
            out.append("}\n");
        },
    }
}

/// Write the vertex entry, and the fragment entry that the stage calls for.
pub fn write_entry_points(
    out: &mut String,
    options: &CodegenOptions,
    interface: &MaterialInterface,
    parts: &Partitions,
)
    ensures
        final(out)@ == entry_points(old(out)@, options@, interface@.geometry, parts@),
{
    let geometry = &interface.geometry;
    write_geometry_io(out, geometry);
    if geometry.is_empty() {
        out.append("\n@vertex\nfn ");
        out.append(options.vertex_entry.as_str());
        out.append("(input: ");
        out.append(abi::VERTEX_IN_STRUCT);
        out.append(") -> ");
        out.append(abi::VERTEX_OUT_STRUCT);
        out.append(" {\n");
        push_context(out, parts);
        out.append("    return ");
        push_transformed(out, parts.vertex.is_some(), "");
        out.append(";\n}\n");
    } else {
        write_wide_vertex_entry(out, options, geometry, parts);
    }
    write_fragment_entry(out, options, geometry, parts);
}

// ---------------------------------------------------------------------------
// The module

/// Earlier as text.
pub open spec fn by_text() -> spec_fn(Seq<char>, Seq<char>) -> bool {
    |a: Seq<char>, b: Seq<char>| text::text_less(a, b)
}

/// What is imported from one module, the items by name.
pub open spec fn import_line(out: Seq<char>, module: Seq<char>, items: Seq<Seq<char>>) -> Seq<char> {
    let ordered = sorting::sorted(items, by_text());
    let start = out + "import "@ + module + "::"@;
    if ordered.len() == 1 {
        start + ordered[0] + ";\n"@
    } else {
        error::names_text(start + "{"@, ordered) + "};\n"@
    }
}

/// What is imported from the first `n` of these modules.
pub open spec fn imports_text(out: Seq<char>, imports: Imports, modules: Seq<Seq<char>>, n: int) -> Seq<
    char,
>
    decreases n,
{
    if n <= 0 {
        out
    } else {
        import_line(
            imports_text(out, imports, modules, n - 1),
            modules[n - 1],
            imports[modules[n - 1]],
        )
    }
}

/// One macro, declared with its value. One that has no name or no literal in
/// source is left out.
pub open spec fn macro_line(out: Seq<char>, name: Seq<char>, value: MacroValue) -> Seq<char> {
    let start = out + "@macro const "@ + name;
    if !wxsl::is_ident(name) {
        out
    } else {
        match value {
            MacroValue::Flag(flag) => start + ": bool = "@ + macros::bool_text(flag) + ";\n"@,
            MacroValue::Int(number) => start + ": i32 = "@ + text::signed_decimal(number as int)
                + ";\n"@,
            MacroValue::Float(number) => match literal::float_literal(number) {
                Some(literal) => start + ": f32 = "@ + literal + ";\n"@,
                None => out,
            },
        }
    }
}

/// The first `n` of these macros, declared with their values.
pub open spec fn macros_text(
    out: Seq<char>,
    macros: Map<Seq<char>, MacroValue>,
    names: Seq<Seq<char>>,
    n: int,
) -> Seq<char>
    decreases n,
{
    if n <= 0 {
        out
    } else {
        macro_line(macros_text(out, macros, names, n - 1), names[n - 1], macros[names[n - 1]])
    }
}

/// What the material's functions are declared to take after the context.
pub open spec fn attribute_params(g: GeometryInterfaceView) -> Seq<char> {
    if asks_nothing(g) {
        ""@
    } else {
        ", "@ + abi::MATERIAL_ATTRIBUTES_VAR@ + ": "@ + abi::MATERIAL_ATTRIBUTES_STRUCT@
    }
}

/// What a function of a partition returns.
pub open spec fn returned(
    out: Seq<char>,
    part: PartitionView,
    socket: Seq<char>,
    fallback: Seq<char>,
) -> Seq<char> {
    out + part.body + "    return "@ + part.input(socket, fallback) + ";\n}\n"@
}

/// The function that displaces a vertex.
pub open spec fn vertex_fn_text(out: Seq<char>, g: GeometryInterfaceView, part: PartitionView) -> Seq<
    char,
> {
    returned(out + "\nfn "@
        + abi::VERTEX_FN@ + "("@ + abi::VERTEX_CONTEXT_VAR@ + ": "@
        + abi::VERTEX_CONTEXT_STRUCT@ + attribute_params(g) + ") -> vec3f {\n"@, part, abi::SOCKET_POSITION_OFFSET@, "vec3f(0.0, 0.0, 0.0)"@)
}

/// What an interpolant is where nothing computes it.
pub open spec fn zero_literal(ty: ValueType) -> Seq<char> {
    match value::zero_of(ty) {
        Some(value) => match value::value_literal(value) {
            Some(literal) => literal,
            None => "0.0"@,
        },
        None => "0.0"@,
    }
}

/// The function that computes an interpolant.
pub open spec fn varying_fn_text(
    out: Seq<char>,
    g: GeometryInterfaceView,
    name: Seq<char>,
    part: PartitionView,
) -> Seq<char> {
    match lists::first_where(g.computed, resources::varying_named(name)) {
        Some(varying) => {
            let ty = varying.ty;
            returned(out + "\nfn "@
                + abi::VARYING_FN_PREFIX@ + name + "("@ + abi::VERTEX_CONTEXT_VAR@ + ": "@
                + abi::VERTEX_CONTEXT_STRUCT@ + attribute_params(g) + ") -> "@ + ty.wxsl_type()@
                + " {\n"@, part, abi::SOCKET_VARYING@, zero_literal(ty))
        },
        None => out,
    }
}

/// The functions that compute the first `n` interpolants.
pub open spec fn varying_fns_text(
    out: Seq<char>,
    g: GeometryInterfaceView,
    s: Seq<(Seq<char>, PartitionView)>,
    n: int,
) -> Seq<char>
    decreases n,
{
    if n <= 0 {
        out
    } else {
        varying_fn_text(varying_fns_text(out, g, s, n - 1), g, s[n - 1].0, s[n - 1].1)
    }
}

/// The function that drops fragments.
pub open spec fn discard_fn_text(out: Seq<char>, g: GeometryInterfaceView, part: PartitionView) -> Seq<
    char,
> {
    returned(out + "\nfn "@ + abi::DISCARD_FN@
        + "("@ + abi::CONTEXT_VAR@ + ": "@ + abi::CONTEXT_STRUCT@ + attribute_params(g)
        + ") -> bool {\n"@, part, abi::SOCKET_DISCARD@, "false"@)
}

/// The first `n` fields of the surface set.
pub open spec fn surface_set(out: Seq<char>, s: Seq<(Seq<char>, Seq<char>)>, n: int) -> Seq<char>
    decreases n,
{
    if n <= 0 {
        out
    } else {
        surface_set(out, s, n - 1) + "    surface."@ + s[n - 1].0 + " = "@ + s[n - 1].1
            + ";\n"@
    }
}

/// The material function: the default surface, with what the graph feeds set.
pub open spec fn surface_fn_text(
    out: Seq<char>,
    name: Seq<char>,
    g: GeometryInterfaceView,
    part: PartitionView,
) -> Seq<char> {
    let head = out + "\nfn "@ + name + "("@ + abi::CONTEXT_VAR@ + ": "@
        + abi::CONTEXT_STRUCT@ + attribute_params(g) + ") -> "@ + abi::SURFACE_STRUCT@ + " {\n"@;
    surface_set(
        head + part.body + "    var surface: "@ + abi::SURFACE_STRUCT@ + " = "@
            + abi::DEFAULT_SURFACE_FN@ + "("@ + abi::CONTEXT_VAR@ + ");\n"@,
        part.inputs,
        part.inputs.len() as int,
    ) + "    return surface;\n}\n"@
}

/// The functions of a module, those of the vertex stage first.
pub open spec fn functions_text(
    out: Seq<char>,
    name: Seq<char>,
    g: GeometryInterfaceView,
    p: PartitionsView,
) -> Seq<char> {
    let vertex = match p.vertex {
        Some(part) => vertex_fn_text(out, g, part),
        None => out,
    };
    let varyings = varying_fns_text(vertex, g, p.varyings, p.varyings.len() as int);
    let discard = match p.discard {
        Some(part) => discard_fn_text(varyings, g, part),
        None => varyings,
    };
    match p.surface {
        Some(part) => surface_fn_text(discard, name, g, part),
        None => discard,
    }
}

/// The start of a module: where it comes from and the values of its macros.
pub open spec fn module_head(name: Seq<char>, macros: Map<Seq<char>, MacroValue>) -> Seq<char> {
    let start = ""@ + "// Generated by wxsl-core from graph `"@ + name + "`.\n"@
        + "// Do not edit: regenerate from the graph instead.\n"@;
    let signature = macros::macro_signature(macros);
    (if signature.len() > 0 {
        start + "// Macros: "@ + signature + "\n"@
    } else {
        start
    }) + "\n"@
}

/// A whole module: what it imports, its macros, what it declares, its
/// functions, its lighting and its entry points.
pub open spec fn module_text(
    name: Seq<char>,
    macros: Map<Seq<char>, MacroValue>,
    o: CodegenOptionsView,
    interface: MaterialInterfaceView,
    imports: Imports,
    lighting: Seq<char>,
    p: PartitionsView,
) -> Seq<char> {
    let modules = textmap::in_order(imports.dom());
    let names = textmap::in_order(macros.dom());
    let declared = declarations(
        macros_text(
            imports_text(module_head(name, macros), imports, modules, modules.len() as int),
            macros,
            names,
            names.len() as int,
        ),
        interface,
    );
    let functions = functions_text(declared, o.material_fn, interface.geometry, p);
    let lit = if lighting.len() > 0 {
        functions + "\n"@ + lighting
    } else {
        functions
    };
    if o.emit_entry_points {
        entry_points(lit, o, interface.geometry, p)
    } else {
        lit
    }
}

/// Put texts in order.
fn sort_texts(texts: Vec<String>) -> (r: Vec<String>)
    ensures
        text::seq_of(r@) == sorting::sorted(text::seq_of(texts@), by_text()),
{
    let less = |a: &String, b: &String| -> (c: bool)
        ensures
            c == by_text()(a@, b@),
        { is_text_less(a.as_str(), b.as_str()) };
    sort_stable(texts, less, Ghost(by_text()))
}

fn push_import(out: &mut String, module: &str, items: &ImportItems)
    ensures
        final(out)@ == import_line(old(out)@, module@, items@),
{
    let ordered = sort_texts(clone_vec(&items.items));
    assert(text::seq_of(ordered@).len() == ordered@.len());
    out.append("import ");
    out.append(module);
    out.append("::");
    if ordered.len() == 1 {
        assert(text::seq_of(ordered@)[0] == ordered@[0]@);
        out.append(ordered[0].as_str());
        out.append(";\n");
    } else {
        out.append("{");
        push_names(out, &ordered);
        out.append("};\n");
    }
}

fn push_imports(out: &mut String, imports: &TextMap<ImportItems>)
    ensures
        final(out)@ == imports_text(
            old(out)@,
            imports@,
            textmap::in_order(imports@.dom()),
            textmap::in_order(imports@.dom()).len() as int,
        ),
{
    let ghost start = out@;
    let ghost modules = textmap::in_order(imports@.dom());
    let n: usize = imports.len();
    let mut i: usize = 0;
    while i < n
        invariant
            i <= n == modules.len(),
            modules == textmap::in_order(imports@.dom()),
            out@ == imports_text(start, imports@, modules, i as int),
        decreases n - i,
    {
        push_import(out, imports.key_at(i), imports.value_at(i));
        i += 1;
    }
}

fn push_macro(out: &mut String, name: &str, value: MacroValue)
    ensures
        final(out)@ == macro_line(old(out)@, name@, value),
{
    if WxslIdent::new(name).is_none() {
        return;
    }
    match value {
        MacroValue::Flag(flag) => {
            out.append("@macro const ");
            out.append(name);
            out.append(": bool = ");
            out.append(bool_string(flag).as_str());
            out.append(";\n");
        },
        MacroValue::Int(number) => {
            out.append("@macro const ");
            out.append(name);
            out.append(": i32 = ");
            out.append(signed_decimal_text(number as i64).as_str());
            out.append(";\n");
        },
        MacroValue::Float(number) => match number.literal() {
            Some(literal) => {
                out.append("@macro const ");
                out.append(name);
                out.append(": f32 = ");
                out.append(literal.as_str());
                out.append(";\n");
            },
            None => {},
        },
    }
}

fn push_macros(out: &mut String, macros: &MacroSet)
    ensures
        final(out)@ == macros_text(
            old(out)@,
            macros@,
            textmap::in_order(macros@.dom()),
            textmap::in_order(macros@.dom()).len() as int,
        ),
{
    let ghost start = out@;
    let ghost names = textmap::in_order(macros@.dom());
    let n: usize = macros.len();
    let mut i: usize = 0;
    while i < n
        invariant
            i <= n == names.len(),
            names == textmap::in_order(macros@.dom()),
            out@ == macros_text(start, macros@, names, i as int),
        decreases n - i,
    {
        push_macro(out, macros.name_at(i), macros.value_at(i));
        i += 1;
    }
}

fn params_for(geometry: &GeometryInterface) -> (r: String)
    ensures
        r@ == attribute_params(geometry@),
{
    if geometry.is_empty() {
        "".to_owned()
    } else {
        let mut params = ", ".to_owned();
        params.append(abi::MATERIAL_ATTRIBUTES_VAR);
        params.append(": ");
        params.append(abi::MATERIAL_ATTRIBUTES_STRUCT);
        params
    }
}

fn push_returned(out: &mut String, part: &Partition, socket: &str, fallback: &str)
    ensures
        final(out)@ == returned(old(out)@, part@, socket@, fallback@),
{
    out.append(part.body.as_str());
    out.append("    return ");
    out.append(part.input(socket, fallback));
    out.append(";\n}\n");
}

fn zero_text(ty: ValueType) -> (r: String)
    ensures
        r@ == zero_literal(ty),
{
    match ty.zero() {
        Some(value) => match value.wxsl_literal() {
            Some(literal) => literal,
            None => "0.0".to_owned(),
        },
        None => "0.0".to_owned(),
    }
}

fn push_varying_fn(
    out: &mut String,
    geometry: &GeometryInterface,
    name: &str,
    params: &str,
    part: &Partition,
)
    requires
        params@ == attribute_params(geometry@),
    ensures
        final(out)@ == varying_fn_text(old(out)@, geometry@, name@, part@),
{
    match geometry.computed_varying(name) {
        Some(varying) => {
            let ty = varying.ty;
            out.append("\nfn ");
            out.append(abi::VARYING_FN_PREFIX);
            out.append(name);
            out.append("(");
            out.append(abi::VERTEX_CONTEXT_VAR);
            out.append(": ");
            out.append(abi::VERTEX_CONTEXT_STRUCT);
            out.append(params);
            out.append(") -> ");
            out.append(ty.wxsl_type());
            out.append(" {\n");
            let zero = zero_text(ty);
            push_returned(out, part, abi::SOCKET_VARYING, zero.as_str());
        },
        None => {},
    }
}

fn push_varying_fns(
    out: &mut String,
    geometry: &GeometryInterface,
    params: &str,
    varyings: &Vec<(WxslIdent, Partition)>,
)
    requires
        params@ == attribute_params(geometry@),
    ensures
        final(out)@ == varying_fns_text(
            old(out)@,
            geometry@,
            text::seq_of(varyings@),
            varyings@.len() as int,
        ),
{
    let ghost start = out@;
    let ghost s = text::seq_of(varyings@);
    let mut i: usize = 0;
    while i < varyings.len()
        invariant
            i <= s.len() == varyings@.len(),
            s == text::seq_of(varyings@),
            params@ == attribute_params(geometry@),
            out@ == varying_fns_text(start, geometry@, s, i as int),
        decreases s.len() - i,
    {
        assert(s[i as int] == varyings@[i as int]@);
        push_varying_fn(out, geometry, varyings[i].0.as_str(), params, &varyings[i].1);
        i += 1;
    }
}

fn push_surface_fn(
    out: &mut String,
    name: &str,
    Ghost(g): Ghost<GeometryInterfaceView>,
    params: &str,
    part: &Partition,
)
    requires
        params@ == attribute_params(g),
    ensures
        final(out)@ == surface_fn_text(old(out)@, name@, g, part@),
{
    out.append("\nfn ");
    out.append(name);
    out.append("(");
    out.append(abi::CONTEXT_VAR);
    out.append(": ");
    out.append(abi::CONTEXT_STRUCT);
    out.append(params);
    out.append(") -> ");
    out.append(abi::SURFACE_STRUCT);
    out.append(" {\n");
    out.append(part.body.as_str());
    out.append("    var surface: ");
    out.append(abi::SURFACE_STRUCT);
    out.append(" = ");
    out.append(abi::DEFAULT_SURFACE_FN);
    out.append("(");
    out.append(abi::CONTEXT_VAR);
    out.append(");\n");
    let ghost start = out@;
    let inputs = &part.inputs;
    let ghost s = text::seq_of(inputs@);
    let mut i: usize = 0;
    while i < inputs.len()
        invariant
            i <= s.len() == inputs@.len(),
            s == text::seq_of(inputs@),
            out@ == surface_set(start, s, i as int),
        decreases s.len() - i,
    {
        assert(s[i as int] == inputs@[i as int]@);
        out.append("    surface.");
        out.append(inputs[i].0.as_str());
        out.append(" = ");
        out.append(inputs[i].1.as_str());
        out.append(";\n");
        i += 1;
    }
    out.append("    return surface;\n}\n");
}

/// Write the functions of a module.
fn write_functions(
    out: &mut String,
    name: &str,
    geometry: &GeometryInterface,
    parts: &Partitions,
)
    ensures
        final(out)@ == functions_text(old(out)@, name@, geometry@, parts@),
{
    let owned = params_for(geometry);
    let params = owned.as_str();
    match &parts.vertex {
        Some(part) => {
            out.append("\nfn ");
            out.append(abi::VERTEX_FN);
            out.append("(");
            out.append(abi::VERTEX_CONTEXT_VAR);
            out.append(": ");
            out.append(abi::VERTEX_CONTEXT_STRUCT);
            out.append(params);
            out.append(") -> vec3f {\n");
            push_returned(out, part, abi::SOCKET_POSITION_OFFSET, "vec3f(0.0, 0.0, 0.0)");
        },
        None => {},
    }
    push_varying_fns(out, geometry, params, &parts.varyings);
    match &parts.discard {
        Some(part) => {
            out.append("\nfn ");
            out.append(abi::DISCARD_FN);
            out.append("(");
            out.append(abi::CONTEXT_VAR);
            out.append(": ");
            out.append(abi::CONTEXT_STRUCT);
            out.append(params);
            out.append(") -> bool {\n");
            push_returned(out, part, abi::SOCKET_DISCARD, "false");
        },
        None => {},
    }
    match &parts.surface {
        Some(part) => {
            push_surface_fn(out, name, Ghost(geometry@), params, part);
        },
        None => {},
    }
}

/// Put a whole module together.
pub fn finish(
    graph_name: &str,
    macros: &MacroSet,
    options: &CodegenOptions,
    interface: &MaterialInterface,
    imports: &TextMap<ImportItems>,
    lighting: &str,
    parts: &Partitions,
) -> (r: String)
    ensures
        r@ == module_text(
            graph_name@,
            macros@,
            options@,
            interface@,
            imports@,
            lighting@,
            parts@,
        ),
{
    let name = graph_name;
    let mut out = "".to_owned();
    out.append("// Generated by wxsl-core from graph `");
    out.append(name);
    out.append("`.\n");
    out.append("// Do not edit: regenerate from the graph instead.\n");
    let signature = macros.signature();
    if !is_blank(signature.as_str()) {
        out.append("// Macros: ");
        out.append(signature.as_str());
        out.append("\n");
    }
    out.append("\n");
    push_imports(&mut out, imports);
    push_macros(&mut out, macros);
    write_declarations(&mut out, interface);
    write_functions(&mut out, options.material_fn.as_str(), &interface.geometry, parts);
    if !is_blank(lighting) {
        out.append("\n");
        out.append(lighting);
    }
    if options.emit_entry_points {
        write_entry_points(&mut out, options, interface, parts);
    }
    out
}

/// Whether a text has no characters.
fn is_blank(text: &str) -> (r: bool)
    ensures
        r == (text@.len() == 0),
{
    proof {
        reveal_strlit("");
    }
    let r = same_text(text, "");
    assert(text@.len() == 0 ==> text@ =~= ""@);
    r
}

} // verus!
