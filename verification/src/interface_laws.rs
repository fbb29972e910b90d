//! What a graph asks to be bound, in terms of the nodes that ask.

use vstd::prelude::*;

use crate::graph::{GraphView, Kinds};
use crate::idmap;
use crate::ids::NodeId;
use crate::interface;
use crate::interface::Asked;
use crate::layout_laws;
use crate::module_laws;
use crate::node;
use crate::resources;
use crate::resources::{Entry, MaterialInterfaceView};
use crate::sorting;
use crate::text;
use crate::value::{Value, ValueType};
use crate::wxsl;

verus! {

// ---------------------------------------------------------------------------
// Who asks for what

/// Whether a node of a set is a parameter of this name and this type.
pub open spec fn asks_param(
    g: GraphView,
    kinds: Kinds,
    set: Set<NodeId>,
    id: NodeId,
    e: Entry,
) -> bool {
    &&& set.contains(id)
    &&& g.known(kinds, id)
    &&& g.kind(kinds, id).body is Param
    &&& g.kind(kinds, id).outputs.len() > 0
    &&& g.declared_name(kinds, id, "name"@) == Some(e.0)
    &&& g.effective_type(id, g.kind(kinds, id).outputs[0]) == Some(e.1)
}

/// Whether a node of a set is a texture or a sampler of this name and this
/// type.
pub open spec fn asks_resource(
    g: GraphView,
    kinds: Kinds,
    set: Set<NodeId>,
    id: NodeId,
    e: Entry,
) -> bool {
    &&& set.contains(id)
    &&& g.known(kinds, id)
    &&& g.kind(kinds, id).body is Resource
    &&& g.kind(kinds, id).outputs.len() > 0
    &&& g.declared_name(kinds, id, "name"@) == Some(e.0)
    &&& g.kind(kinds, id).outputs[0].ty == e.1
}

/// Whether a node of a set reads the block of the application.
pub open spec fn asks_block(g: GraphView, kinds: Kinds, set: Set<NodeId>, id: NodeId) -> bool {
    set.contains(id) && g.known(kinds, id) && g.kind(kinds, id).body is UserRead
}

/// Whether a name stands once at most in a list of declarations.
pub open spec fn names_apart(s: Seq<Entry>) -> bool {
    forall|i: int, j: int| 0 <= i < j < s.len() ==> (#[trigger] s[i]).0 != (#[trigger] s[j]).0
}

/// Whether a node of a set is a parameter so.
pub open spec fn is_param(g: GraphView, kinds: Kinds, set: Set<NodeId>, e: Entry) -> bool {
    exists|id: NodeId| #[trigger] asks_param(g, kinds, set, id, e)
}

/// Whether a node of a set is a texture or a sampler so.
pub open spec fn is_resource(g: GraphView, kinds: Kinds, set: Set<NodeId>, e: Entry) -> bool {
    exists|id: NodeId| #[trigger] asks_resource(g, kinds, set, id, e)
}

/// What is asked for is what the first `n` nodes ask for, each name once.
spec fn asked_right(g: GraphView, kinds: Kinds, set: Set<NodeId>, a: Asked, n: int) -> bool {
    &&& names_apart(a.params)
    &&& names_apart(a.resources)
    &&& forall|i: int|
        0 <= i < a.params.len() ==> is_param(g, kinds, set, #[trigger] a.params[i])
    &&& forall|i: int|
        0 <= i < a.resources.len() ==> is_resource(g, kinds, set, #[trigger] a.resources[i])
    &&& forall|k: int, e: Entry|
        0 <= k < n && #[trigger] asks_param(g, kinds, set, g.ids()[k], e)
            ==> resources::declares(a.params, e.0)
    &&& forall|k: int, e: Entry|
        0 <= k < n && #[trigger] asks_resource(g, kinds, set, g.ids()[k], e)
            ==> resources::declares(a.resources, e.0)
    &&& a.reads_user <==> exists|k: int|
        0 <= k < n && asks_block(g, kinds, set, #[trigger] g.ids()[k])
}

proof fn lemma_pushed(s: Seq<Entry>, e: Entry)
    ensures
        resources::declares(s.push(e), e.0),
        forall|name: Seq<char>|
            resources::declares(s, name) ==> #[trigger] resources::declares(s.push(e), name),
        names_apart(s) && !resources::declares(s, e.0) ==> names_apart(s.push(e)),
{
    let t = s.push(e);
    assert(t[s.len() as int].0 == e.0);
    assert forall|name: Seq<char>| resources::declares(s, name) implies #[trigger] resources::declares(
        t,
        name,
    ) by {
        let j = choose|j: int| 0 <= j < s.len() && (#[trigger] s[j]).0 == name;
        assert(t[j].0 == name);
    }
}

proof fn lemma_asked(g: GraphView, kinds: Kinds, set: Set<NodeId>, n: int)
    requires
        0 <= n <= g.ids().len(),
    ensures
        asked_right(g, kinds, set, interface::asked_by(g, kinds, set, g.ids(), n), n),
    decreases n,
{
    if n > 0 {
        lemma_asked(g, kinds, set, n - 1);
        let before = interface::asked_by(g, kinds, set, g.ids(), n - 1);
        let a = interface::asked_by(g, kinds, set, g.ids(), n);
        let id = g.ids()[n - 1];
        let d = g.kind(kinds, id);
        let name = g.declared_name(kinds, id, "name"@);
        let asks = set.contains(id) && g.known(kinds, id) && name is Some && d.outputs.len() > 0;
        if asks && d.body is Param && g.effective_type(id, d.outputs[0]) is Some {
            let e = (name->0, g.effective_type(id, d.outputs[0])->0);
            lemma_pushed(before.params, e);
            assert(asks_param(g, kinds, set, id, e));
            assert(a.params == before.params || a.params == before.params.push(e));
            assert(resources::declares(a.params, e.0));
        }
        if asks && d.body is Resource {
            let e = (name->0, d.outputs[0].ty);
            lemma_pushed(before.resources, e);
            assert(asks_resource(g, kinds, set, id, e));
            assert(a.resources == before.resources || a.resources == before.resources.push(e));
            assert(resources::declares(a.resources, e.0));
        }
        assert forall|i: int| 0 <= i < a.params.len() implies is_param(
            g,
            kinds,
            set,
            #[trigger] a.params[i],
        ) by {
            if i < before.params.len() {
                assert(a.params[i] == before.params[i]);
            }
        }
        assert forall|i: int| 0 <= i < a.resources.len() implies is_resource(
            g,
            kinds,
            set,
            #[trigger] a.resources[i],
        ) by {
            if i < before.resources.len() {
                assert(a.resources[i] == before.resources[i]);
            }
        }
        assert forall|k: int, e: Entry|
            0 <= k < n && #[trigger] asks_param(
                g,
                kinds,
                set,
                g.ids()[k],
                e,
            ) implies resources::declares(a.params, e.0) by {
            if k < n - 1 {
                assert(resources::declares(before.params, e.0));
            }
        }
        assert forall|k: int, e: Entry|
            0 <= k < n && #[trigger] asks_resource(
                g,
                kinds,
                set,
                g.ids()[k],
                e,
            ) implies resources::declares(a.resources, e.0) by {
            if k < n - 1 {
                assert(resources::declares(before.resources, e.0));
            }
        }
        assert(names_apart(a.params));
        assert(names_apart(a.resources));
        assert(a.reads_user <==> before.reads_user || asks_block(g, kinds, set, id));
        if asks_block(g, kinds, set, id) {
            assert(asks_block(g, kinds, set, g.ids()[n - 1]));
        }
        if before.reads_user {
            let k = choose|k: int|
                0 <= k < n - 1 && asks_block(g, kinds, set, #[trigger] g.ids()[k]);
            assert(asks_block(g, kinds, set, g.ids()[k]));
        }
        if exists|k: int| 0 <= k < n && asks_block(g, kinds, set, #[trigger] g.ids()[k]) {
            let k = choose|k: int| 0 <= k < n && asks_block(g, kinds, set, #[trigger] g.ids()[k]);
            if k < n - 1 {
                assert(before.reads_user);
            }
        }
        assert(a.reads_user <==> exists|k: int|
            0 <= k < n && asks_block(g, kinds, set, #[trigger] g.ids()[k]));
    }
}

/// The place of a node among the nodes of a graph.
proof fn lemma_place(g: GraphView, id: NodeId) -> (k: int)
    requires
        g.nodes.contains_key(id),
    ensures
        0 <= k < g.ids().len(),
        g.ids()[k] == id,
{
    idmap::lemma_in_order(g.nodes.dom());
    assert(g.ids().contains(id));
    choose|k: int| 0 <= k < g.ids().len() && g.ids()[k] == id
}

/// Every texture and sampler of an interface is one that a node asks for, under
/// its name and of its type.
pub proof fn bound_resources_are_asked_for(g: GraphView, kinds: Kinds, set: Set<NodeId>, i: int)
    requires
        0 <= i < interface::interface_asked(g, kinds, set).resources.len(),
    ensures
        ({
            let r = interface::interface_asked(g, kinds, set).resources[i];
            exists|id: NodeId| #[trigger] asks_resource(g, kinds, set, id, (r.name, r.ty))
        }),
{
    let n = g.ids().len() as int;
    lemma_asked(g, kinds, set, n);
    let a = interface::asked_by(g, kinds, set, g.ids(), n).resources;
    resources::lemma_by_name_is_strict();
    sorting::lemma_sorted(a, resources::by_name());
    let s = sorting::sorted(a, resources::by_name());
    assert(s.contains(s[i]));
    assert(a.contains(s[i]));
    let j = choose|j: int| 0 <= j < a.len() && a[j] == s[i];
    let id = choose|id: NodeId| asks_resource(g, kinds, set, id, a[j]);
    let r = interface::interface_asked(g, kinds, set).resources[i];
    assert((r.name, r.ty) == a[j]);
    assert(asks_resource(g, kinds, set, id, (r.name, r.ty)));
}

/// Every texture and sampler that a node asks for is in the interface under its
/// name.
pub proof fn what_nodes_sample_is_bound(
    g: GraphView,
    kinds: Kinds,
    set: Set<NodeId>,
    id: NodeId,
    e: Entry,
)
    requires
        asks_resource(g, kinds, set, id, e),
    ensures
        exists|i: int|
            0 <= i < interface::interface_asked(g, kinds, set).resources.len() && (
            #[trigger] interface::interface_asked(g, kinds, set).resources[i]).name == e.0,
{
    let n = g.ids().len() as int;
    lemma_asked(g, kinds, set, n);
    let k = lemma_place(g, id);
    assert(asks_resource(g, kinds, set, g.ids()[k], e));
    let a = interface::asked_by(g, kinds, set, g.ids(), n).resources;
    let j = choose|j: int| 0 <= j < a.len() && (#[trigger] a[j]).0 == e.0;
    resources::lemma_by_name_is_strict();
    sorting::lemma_sorted(a, resources::by_name());
    let s = sorting::sorted(a, resources::by_name());
    assert(a.contains(a[j]));
    assert(s.contains(a[j]));
    let i = choose|i: int| 0 <= i < s.len() && s[i] == a[j];
    assert(interface::interface_asked(g, kinds, set).resources[i].name == e.0);
}

/// The textures and samplers of an interface have names and bindings of their
/// own: the first binding is behind that of the parameters, each next one is
/// one more.
pub proof fn resources_have_bindings_of_their_own(
    g: GraphView,
    kinds: Kinds,
    set: Set<NodeId>,
    i: int,
    j: int,
)
    requires
        0 <= i < j < interface::interface_asked(g, kinds, set).resources.len(),
        interface::interface_asked(g, kinds, set).resources.len() < u32::MAX,
    ensures
        ({
            let s = interface::interface_asked(g, kinds, set).resources;
            &&& s[i].name != s[j].name
            &&& text::text_less(s[i].name, s[j].name)
            &&& 1 <= s[i].binding < s[j].binding
            &&& s[j].binding - s[i].binding == j - i
            &&& s[0].binding == 1
        }),
{
    let n = g.ids().len() as int;
    lemma_asked(g, kinds, set, n);
    let a = interface::asked_by(g, kinds, set, g.ids(), n).resources;
    resources::lemma_by_name_is_strict();
    sorting::lemma_sorted(a, resources::by_name());
    let s = sorting::sorted(a, resources::by_name());
    layout_laws::lemma_sorting_keeps_names_apart(a, s);
    let less = resources::by_name();
    assert(!less(s[j], s[i]));
    text::text_less_total(s[i].0, s[j].0);
}

/// The parameter block of an interface holds a value for every parameter that a
/// node asks for, and for nothing else; a handle is none of its fields.
pub proof fn parameters_are_those_asked_for(g: GraphView, kinds: Kinds, set: Set<NodeId>, e: Entry)
    ensures
        layout_laws::holds_entry(interface::interface_asked(g, kinds, set).params.fields, e)
            ==> !e.1.is_resource() && exists|id: NodeId| #[trigger]
            asks_param(g, kinds, set, id, e),
        (exists|id: NodeId| #[trigger] asks_param(g, kinds, set, id, e)) && (forall|
            id: NodeId,
            other: ValueType,
        |
            #[trigger] asks_param(g, kinds, set, id, (e.0, other)) ==> other == e.1)
            && !e.1.is_resource() ==> layout_laws::holds_entry(
            interface::interface_asked(g, kinds, set).params.fields,
            e,
        ),
{
    let n = g.ids().len() as int;
    lemma_asked(g, kinds, set, n);
    let a = interface::asked_by(g, kinds, set, g.ids(), n).params;
    layout_laws::uniform_buffers_hold_what_is_declared(a, e);
    if layout_laws::stands(a, e) {
        let k = choose|k: int|
            0 <= k < a.len() && #[trigger] a[k] == e && !resources::superseded(a, k);
        let id = choose|id: NodeId| asks_param(g, kinds, set, id, a[k]);
        assert(asks_param(g, kinds, set, id, e));
    }
    if (exists|id: NodeId| #[trigger] asks_param(g, kinds, set, id, e)) && (forall|
        id: NodeId,
        other: ValueType,
    |
        #[trigger] asks_param(g, kinds, set, id, (e.0, other)) ==> other == e.1) {
        let id = choose|id: NodeId| #[trigger] asks_param(g, kinds, set, id, e);
        let k = lemma_place(g, id);
        assert(asks_param(g, kinds, set, g.ids()[k], e));
        let j = choose|j: int| 0 <= j < a.len() && (#[trigger] a[j]).0 == e.0;
        let owner = choose|x: NodeId| asks_param(g, kinds, set, x, a[j]);
        assert(asks_param(g, kinds, set, owner, (e.0, a[j].1)));
        assert(a[j] == e);
        assert(!resources::superseded(a, j));
        assert(layout_laws::stands(a, e));
    }
}

/// The block of the application is in an interface exactly where a node reads
/// it and the graph declares it under a usable name.
pub proof fn the_block_is_bound_where_it_is_read(g: GraphView, kinds: Kinds, set: Set<NodeId>)
    ensures
        interface::interface_asked(g, kinds, set).user is Some <==> g.user_block is Some
            && wxsl::is_ident(g.user_block->0.name) && exists|id: NodeId| #[trigger]
            asks_block(g, kinds, set, id),
        interface::interface_asked(g, kinds, set).user matches Some(user) ==> user.name
            == g.user_block->0.name,
{
    let n = g.ids().len() as int;
    lemma_asked(g, kinds, set, n);
    if exists|id: NodeId| #[trigger] asks_block(g, kinds, set, id) {
        let id = choose|id: NodeId| #[trigger] asks_block(g, kinds, set, id);
        let k = lemma_place(g, id);
        assert(asks_block(g, kinds, set, g.ids()[k]));
    }
}

// ---------------------------------------------------------------------------
// Groups and bindings

/// Whether an interface has a variable of this name bound at a group and a
/// binding: the parameters, a texture or sampler, the block of the application,
/// or the rows of the instances.
pub open spec fn is_bound_at(
    m: MaterialInterfaceView,
    group: nat,
    binding: nat,
    name: Seq<char>,
) -> bool {
    ||| group == 1 && binding == 0 && name == "material"@ && m.params.fields.len() > 0
    ||| group == 1 && exists|i: int|
        0 <= i < m.resources.len() && (#[trigger] m.resources[i]).binding == binding
            && m.resources[i].name == name
    ||| group == 2 && binding == 0 && m.user is Some && m.user->0.name == name
    ||| group == 0 && binding == 3 && name == "wxsl_instance_attributes"@
        && module_laws::asks(m.geometry) && m.geometry.instance_index_location is Some
}

/// No two variables of an interface share a group and a binding, whatever
/// crosses between the stages besides.
pub proof fn places_hold_one_variable(
    g: GraphView,
    kinds: Kinds,
    set: Set<NodeId>,
    m: MaterialInterfaceView,
    group: nat,
    binding: nat,
    a: Seq<char>,
    b: Seq<char>,
)
    requires
        m.resources == interface::interface_asked(g, kinds, set).resources,
        m.resources.len() < u32::MAX,
        is_bound_at(m, group, binding, a),
        is_bound_at(m, group, binding, b),
    ensures
        a == b,
{
    if group == 1 {
        if binding == 0 {
            assert forall|i: int| 0 <= i < m.resources.len() implies (
            #[trigger] m.resources[i]).binding != 0 by {}
        } else {
            let i = choose|i: int|
                0 <= i < m.resources.len() && (#[trigger] m.resources[i]).binding == binding
                    && m.resources[i].name == a;
            let j = choose|j: int|
                0 <= j < m.resources.len() && (#[trigger] m.resources[j]).binding == binding
                    && m.resources[j].name == b;
            if i < j {
                resources_have_bindings_of_their_own(g, kinds, set, i, j);
            } else if j < i {
                resources_have_bindings_of_their_own(g, kinds, set, j, i);
            }
        }
    }
}

proof fn lemma_occurs_inside(source: Seq<char>, a: Seq<char>, part: Seq<char>, b: Seq<char>)
    requires
        module_laws::occurs(source, a + part + b),
    ensures
        module_laws::occurs(source, part),
{
    let before = choose|before: Seq<char>|
        text::begins(source, #[trigger] (before + (a + part + b)));
    let whole = before + (a + part + b);
    assert(whole =~= (before + a) + part + b);
    text::lemma_begins_itself((before + a) + part);
    text::lemma_begins_further((before + a) + part, (before + a) + part, b);
    text::lemma_begins_across((before + a) + part, whole, source);
}

proof fn lemma_flat_parts(parts: Seq<Seq<char>>, i: int) -> (r: (Seq<char>, Seq<char>))
    requires
        0 <= i < parts.len(),
    ensures
        text::flat(parts) == r.0 + parts[i] + r.1,
    decreases parts.len(),
{
    if i == parts.len() - 1 {
        let r = (text::flat(parts.drop_last()), Seq::empty());
        assert(text::flat(parts) =~= r.0 + parts[i] + r.1);
        r
    } else {
        let (a, b) = lemma_flat_parts(parts.drop_last(), i);
        let r = (a, b + parts.last());
        assert(parts.drop_last()[i] == parts[i]);
        assert(text::flat(parts) =~= r.0 + parts[i] + r.1);
        r
    }
}

proof fn lemma_rows() -> (own: Seq<char>)
    ensures
        own == module_laws::bound_piece(
            0,
            3,
            ") var<storage, read> "@,
            "wxsl_instance_attributes"@,
            "array<"@ + "MaterialInstance"@ + ">"@,
        ),
        own == "@group("@ + text::decimal(0) + ") @binding("@ + text::decimal(3)
            + ") var<storage, read> "@ + "wxsl_instance_attributes"@ + ": array<"@
            + "MaterialInstance"@ + ">;\n"@,
{
    reveal_strlit(">;\n");
    reveal_strlit(">");
    reveal_strlit(";\n");
    reveal_strlit(": array<");
    reveal_strlit("array<");
    reveal_strlit(": ");
    assert(": array<"@ =~= ": "@ + "array<"@);
    assert(">;\n"@ =~= ">"@ + ";\n"@);
    let own = module_laws::bound_piece(
        0,
        3,
        ") var<storage, read> "@,
        "wxsl_instance_attributes"@,
        "array<"@ + "MaterialInstance"@ + ">"@,
    );
    assert(own =~= "@group("@ + text::decimal(0) + ") @binding("@ + text::decimal(3)
        + ") var<storage, read> "@ + "wxsl_instance_attributes"@ + ": array<"@
        + "MaterialInstance"@ + ">;\n"@);
    own
}

/// Source that declares what an interface asks for declares each variable of it
/// at the group and the binding that are its own; a texture or sampler with its
/// type.
pub proof fn variables_are_declared_where_they_are_bound(
    source: Seq<char>,
    m: MaterialInterfaceView,
    group: nat,
    binding: nat,
    name: Seq<char>,
)
    requires
        module_laws::occurs(source, module_laws::declared_piece(m)),
        is_bound_at(m, group, binding, name),
    ensures
        exists|kind: Seq<char>, ty: Seq<char>|
            module_laws::occurs(
                source,
                #[trigger] module_laws::bound_piece(group, binding, kind, name, ty),
            ),
{
    let asked = if module_laws::asks(m.geometry) {
        module_laws::attributes_piece(m.geometry) + module_laws::rows_piece(m.geometry)
    } else {
        Seq::empty()
    };
    let params = module_laws::params_piece(m);
    let lines = module_laws::resources_lines(m.resources);
    let middle = module_laws::all(lines);
    let user = module_laws::user_piece(m);
    let piece = module_laws::declared_piece(m);
    if group == 1 && binding == 0 && name == "material"@ && m.params.fields.len() > 0 {
        let own = module_laws::bound_piece(
            1,
            0,
            ") var<uniform> "@,
            "material"@,
            "MaterialParams"@,
        );
        let front = "\n"@ + module_laws::struct_piece(m.params, "MaterialParams"@);
        let rest = middle + user + asked;
        assert(piece =~= front + own + rest);
        lemma_occurs_inside(source, front, own, rest);
    } else if group == 1 {
        let i = choose|i: int|
            0 <= i < m.resources.len() && (#[trigger] m.resources[i]).binding == binding
                && m.resources[i].name == name;
        declared_resources_stand_in_the_source(source, m, i);
    } else if group == 2 {
        let block = m.user->0;
        let own = module_laws::bound_piece(
            2,
            0,
            ") var<uniform> "@,
            block.name,
            block.struct_name,
        );
        let front = "\n"@ + params + middle + module_laws::struct_piece(
            block.layout,
            block.struct_name,
        );
        assert(piece =~= front + own + asked);
        lemma_occurs_inside(source, front, own, asked);
    } else {
        let own = lemma_rows();
        let front = "\n"@ + params + middle + user + module_laws::attributes_piece(m.geometry)
            + module_laws::struct_piece(m.geometry.instance, "MaterialInstance"@);
        let none = Seq::<char>::empty();
        assert(piece =~= front + own + none);
        lemma_occurs_inside(source, front, own, none);
    }
}

/// Source that declares what an interface asks for declares each texture and
/// sampler of it in the material's group, at its own binding, with its name and
/// its type.
pub proof fn declared_resources_stand_in_the_source(
    source: Seq<char>,
    m: MaterialInterfaceView,
    i: int,
)
    requires
        module_laws::occurs(source, module_laws::declared_piece(m)),
        0 <= i < m.resources.len(),
    ensures
        module_laws::occurs(
            source,
            module_laws::bound_piece(
                1,
                m.resources[i].binding as nat,
                ") var "@,
                m.resources[i].name,
                m.resources[i].ty.wxsl_type()@,
            ),
        ),
{
    let asked = if module_laws::asks(m.geometry) {
        module_laws::attributes_piece(m.geometry) + module_laws::rows_piece(m.geometry)
    } else {
        Seq::empty()
    };
    let params = module_laws::params_piece(m);
    let lines = module_laws::resources_lines(m.resources);
    let user = module_laws::user_piece(m);
    let r = m.resources[i];
    let own = module_laws::bound_piece(
        1,
        r.binding as nat,
        ") var "@,
        r.name,
        r.ty.wxsl_type()@,
    );
    assert(lines[i] == own);
    let (a, b) = lemma_flat_parts(lines, i);
    let front = "\n"@ + params + a;
    let rest = b + user + asked;
    assert(module_laws::declared_piece(m) =~= front + own + rest);
    lemma_occurs_inside(source, front, own, rest);
}


// ---------------------------------------------------------------------------
// What parameters start from

/// Whether a parameter of this name starts from a value at its node: the one
/// pinned there, or without one the one that its kind starts with; of its type.
pub open spec fn starts_from(
    g: GraphView,
    kinds: Kinds,
    set: Set<NodeId>,
    id: NodeId,
    name: Seq<char>,
    v: Value,
) -> bool {
    let pinned = g.nodes[id].params;
    &&& asks_param(g, kinds, set, id, (name, v.ty()))
    &&& g.kind(kinds, id).input("value"@) matches Some(s) && (if pinned.contains_key("value"@) {
        pinned["value"@] == v
    } else {
        node::default_of(s, v.ty()) == Some(v)
    })
}

/// Every value that an interface gives a parameter is the one that a node of
/// that parameter starts from.
pub proof fn parameters_start_from_what_their_node_says(
    g: GraphView,
    kinds: Kinds,
    set: Set<NodeId>,
    name: Seq<char>,
)
    requires
        interface::interface_asked(g, kinds, set).defaults.contains_key(name),
    ensures
        exists|id: NodeId| #[trigger]
            starts_from(
                g,
                kinds,
                set,
                id,
                name,
                interface::interface_asked(g, kinds, set).defaults[name],
            ),
{
    lemma_started(g, kinds, set, g.ids().len() as int, name);
}

proof fn lemma_started(g: GraphView, kinds: Kinds, set: Set<NodeId>, n: int, name: Seq<char>)
    requires
        interface::asked_by(g, kinds, set, g.ids(), n).defaults.contains_key(name),
    ensures
        exists|id: NodeId| #[trigger]
            starts_from(
                g,
                kinds,
                set,
                id,
                name,
                interface::asked_by(g, kinds, set, g.ids(), n).defaults[name],
            ),
    decreases n,
{
    if n > 0 {
        let before = interface::asked_by(g, kinds, set, g.ids(), n - 1);
        let a = interface::asked_by(g, kinds, set, g.ids(), n);
        let id = g.ids()[n - 1];
        if before.defaults.contains_key(name) && a.defaults[name] == before.defaults[name] {
            lemma_started(g, kinds, set, n - 1, name);
        } else {
            let ty = g.effective_type(id, g.kind(kinds, id).outputs[0])->0;
            assert(interface::starting_value(g, g.kind(kinds, id), id, ty) == Some(
                a.defaults[name],
            ));
            assert(starts_from(g, kinds, set, id, name, a.defaults[name]));
        }
    }
}

} // verus!
