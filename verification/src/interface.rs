//! What has to be bound before a material compiled from a graph can draw.

use vstd::prelude::*;

use crate::abi;
use crate::graph;
use crate::graph::{
    AttributeFrequency, Graph, GraphView, Kinds, NodeId, UserBlockDecl, UserBlockDeclView,
    UserFieldView,
};
use crate::idmap::NodeSet;
use crate::node;
use crate::node::{
    NodeBody, NodeBodyView, NodeDefinition, NodeDefinitionView, NodeRegistry, Value, ValueType,
    SETTING_NAME, SOCKET_VALUE,
};
use crate::outputs;
use crate::resources;
use crate::resources::{
    sort_by_name, uniform_fits, BufferLayout, Entry, GeometryInterface, GeometryInterfaceView,
    MaterialInterface, MaterialInterfaceView, ResourceBinding, ResourceBindingView, UserBlock,
    UserBlockView,
};
use crate::sorting;
use crate::text;
use crate::text::same_text;
use crate::textmap::TextMap;
use crate::wxsl;
use crate::wxsl::WxslIdent;

verus! {

/// What the nodes of a graph ask for, by the time some of them were asked.
#[verifier::ext_equal]
pub struct Asked {
    /// The parameters, each name once.
    pub params: Seq<Entry>,
    /// The value each starts from.
    pub defaults: Map<Seq<char>, Value>,
    /// The textures and samplers, each name once.
    pub resources: Seq<Entry>,
    /// Whether the application's block is read.
    pub reads_user: bool,
}

/// The value that a parameter starts from: the one pinned on the node, or the
/// one its kind starts with, if it is of the parameter's type.
pub open spec fn starting_value(
    g: GraphView,
    d: NodeDefinitionView,
    id: NodeId,
    ty: ValueType,
) -> Option<Value> {
    match d.input(SOCKET_VALUE@) {
        Some(s) => {
            let pinned = g.nodes[id].params;
            let value = if pinned.contains_key(SOCKET_VALUE@) {
                Some(pinned[SOCKET_VALUE@])
            } else {
                node::default_of(s, ty)
            };
            match value {
                Some(v) => if v.ty() == ty {
                    Some(v)
                } else {
                    None
                },
                None => None,
            }
        },
        None => None,
    }
}

/// What is asked for with a parameter more: of one name the first stands.
pub open spec fn with_param(a: Asked, name: Seq<char>, ty: ValueType, start: Option<Value>) -> Asked {
    if resources::declares(a.params, name) {
        a
    } else {
        Asked {
            params: a.params.push((name, ty)),
            defaults: match start {
                Some(v) => a.defaults.insert(name, v),
                None => a.defaults,
            },
            ..a
        }
    }
}

/// What is asked for with a texture or sampler more: of one name the first
/// stands.
pub open spec fn with_resource(a: Asked, name: Seq<char>, ty: ValueType) -> Asked {
    if resources::declares(a.resources, name) {
        a
    } else {
        Asked { resources: a.resources.push((name, ty)), ..a }
    }
}

/// What is asked for with one node more.
pub open spec fn with_asking(a: Asked, g: GraphView, kinds: Kinds, id: NodeId) -> Asked {
    let d = g.kind(kinds, id);
    let name = g.declared_name(kinds, id, SETTING_NAME@);
    match d.body {
        NodeBodyView::Param => if name is Some && d.outputs.len() > 0 {
            match g.effective_type(id, d.outputs[0]) {
                Some(ty) => with_param(a, name->0, ty, starting_value(g, d, id, ty)),
                None => a,
            }
        } else {
            a
        },
        NodeBodyView::Resource => if name is Some && d.outputs.len() > 0 {
            with_resource(a, name->0, d.outputs[0].ty)
        } else {
            a
        },
        NodeBodyView::UserRead => Asked { reads_user: true, ..a },
        _ => a,
    }
}

/// What the first `n` of these nodes ask for, as far as they are in a set.
pub open spec fn asked_by(
    g: GraphView,
    kinds: Kinds,
    set: Set<NodeId>,
    ids: Seq<NodeId>,
    n: int,
) -> Asked
    decreases n,
{
    if n <= 0 {
        Asked {
            params: Seq::empty(),
            defaults: Map::empty(),
            resources: Seq::empty(),
            reads_user: false,
        }
    } else {
        let before = asked_by(g, kinds, set, ids, n - 1);
        if set.contains(ids[n - 1]) && g.known(kinds, ids[n - 1]) {
            with_asking(before, g, kinds, ids[n - 1])
        } else {
            before
        }
    }
}

/// The bindings of textures and samplers, in name order.
pub open spec fn bound(resources: Seq<Entry>) -> Seq<ResourceBindingView> {
    let s = sorting::sorted(resources, resources::by_name());
    Seq::new(
        s.len(),
        |i: int|
            ResourceBindingView {
                name: s[i].0,
                ty: s[i].1,
                binding: (abi::MATERIAL_RESOURCE_BINDING_BASE + i) as u32,
            },
    )
}

/// The first `n` fields of a block that have usable names.
pub open spec fn usable_fields(fields: Seq<UserFieldView>, n: int) -> Seq<Entry>
    decreases n,
{
    if n <= 0 {
        Seq::empty()
    } else if wxsl::is_ident(fields[n - 1].name) {
        usable_fields(fields, n - 1).push((fields[n - 1].name, fields[n - 1].ty))
    } else {
        usable_fields(fields, n - 1)
    }
}

/// The block that a declaration stands for, where its name is usable.
pub open spec fn block_of(decl: UserBlockDeclView) -> Option<UserBlockView> {
    if wxsl::is_ident(decl.name) {
        Some(
            UserBlockView {
                name: decl.name,
                struct_name: decl.name + "_uniforms"@,
                layout: resources::laid_out(
                    resources::uniform_order(usable_fields(decl.fields, decl.fields.len() as int)),
                    16,
                ),
            },
        )
    } else {
        None
    }
}

/// What a graph asks of its geometry.
pub open spec fn geometry_asked(g: GraphView) -> GeometryInterfaceView {
    let n = g.attributes.len() as int;
    resources::geometry_of(
        graph::attributes_of(g.attributes, AttributeFrequency::Vertex, n),
        graph::attributes_of(g.attributes, AttributeFrequency::Instance, n),
        graph::attributes_of(g.attributes, AttributeFrequency::Computed, n),
    )
}

/// What some nodes of a graph ask to be bound.
pub open spec fn interface_asked(g: GraphView, kinds: Kinds, set: Set<NodeId>) -> MaterialInterfaceView {
    let a = asked_by(g, kinds, set, g.ids(), g.ids().len() as int);
    MaterialInterfaceView {
        params: resources::laid_out(resources::uniform_order(a.params), 16),
        defaults: a.defaults,
        resources: bound(a.resources),
        user: match g.user_block {
            Some(decl) => if a.reads_user {
                block_of(decl)
            } else {
                None
            },
            None => None,
        },
        geometry: geometry_asked(g),
    }
}

/// What a graph asks to be bound. Only what an end depends on counts.
pub open spec fn interface_of_graph(g: GraphView, kinds: Kinds) -> MaterialInterfaceView {
    match outputs::outputs_of(g, kinds) {
        Some(o) => interface_asked(g, kinds, outputs::reachable(g, o)),
        None => resources::bare_interface(),
    }
}

impl GraphView {
    /// What the graph declares of its geometry can be numbered, and so can the
    /// names of what crosses between the stages.
    pub open spec fn geometry_fits(self) -> bool {
        let n = self.attributes.len() as int;
        &&& resources::geometry_fits(
            graph::attributes_of(self.attributes, AttributeFrequency::Vertex, n),
            graph::attributes_of(self.attributes, AttributeFrequency::Instance, n),
            graph::attributes_of(self.attributes, AttributeFrequency::Computed, n),
        )
        &&& n + abi::MAX_VARYING_LOCATIONS < usize::MAX - 1
    }

    /// What some nodes of the graph ask to be bound can be: the buffers can be
    /// laid out, and 32 bits count the bindings.
    pub open spec fn interface_fits(self, kinds: Kinds, set: Set<NodeId>) -> bool {
        let a = asked_by(self, kinds, set, self.ids(), self.ids().len() as int);
        &&& self.geometry_fits()
        &&& resources::layout_fits(resources::uniform_order(a.params), 16)
        &&& abi::MATERIAL_RESOURCE_BINDING_BASE + a.resources.len() <= u32::MAX
        &&& a.reads_user && self.user_block is Some ==> block_fits(self.user_block->0)
    }

    /// What the graph asks to be bound can be.
    pub open spec fn within_limits(self, kinds: Kinds) -> bool {
        &&& self.geometry_fits()
        &&& match outputs::outputs_of(self, kinds) {
            Some(o) => self.interface_fits(kinds, outputs::reachable(self, o)),
            None => true,
        }
    }
}

/// Whether a buffer can hold the block of the application.
pub open spec fn block_fits(decl: UserBlockDeclView) -> bool {
    wxsl::is_ident(decl.name) ==> resources::layout_fits(
        resources::uniform_order(usable_fields(decl.fields, decl.fields.len() as int)),
        16,
    )
}

/// Whether a name is among these declarations.
fn has_name(entries: &Vec<(WxslIdent, ValueType)>, name: &str) -> (r: bool)
    ensures
        r == resources::declares(text::seq_of(entries@), name@),
{
    let ghost s = text::seq_of(entries@);
    let mut i: usize = 0;
    while i < entries.len()
        invariant
            i <= s.len() == entries@.len(),
            s == text::seq_of(entries@),
            forall|j: int| 0 <= j < i ==> (#[trigger] s[j]).0 != name@,
        decreases s.len() - i,
    {
        assert(s[i as int] == entries@[i as int]@);
        if same_text(entries[i].0.as_str(), name) {
            return true;
        }
        i += 1;
    }
    false
}

impl Graph {
    /// What the graph asks of its geometry.
    pub(crate) fn geometry(&self) -> (r: GeometryInterface)
        requires
            self@.geometry_fits(),
        ensures
            r@ == geometry_asked(self@),
    {
        GeometryInterface::new(
            self.declared_attributes(AttributeFrequency::Vertex),
            self.declared_attributes(AttributeFrequency::Instance),
            self.declared_attributes(AttributeFrequency::Computed),
        )
    }

    /// Whether what the graph declares of its geometry can be numbered, and the
    /// names of what crosses between the stages too.
    pub fn has_countable_geometry(&self) -> (r: bool)
        ensures
            r == self@.geometry_fits(),
    {
        self.attributes().len() < usize::MAX - 1 - abi::MAX_VARYING_LOCATIONS
            && GeometryInterface::can_number(
            self.declared_attributes(AttributeFrequency::Vertex),
            self.declared_attributes(AttributeFrequency::Instance),
            self.declared_attributes(AttributeFrequency::Computed),
        )
    }

    /// The value that a parameter starts from.
    fn start_of_param(&self, def: &NodeDefinition, id: NodeId, ty: ValueType) -> (r: Option<Value>)
        requires
            self@.nodes.contains_key(id),
        ensures
            r == starting_value(self@, def@, id, ty),
    {
        let socket = match def.input(SOCKET_VALUE) {
            Some(s) => s,
            None => {
                return None;
            },
        };
        let pinned = match self.nodes.get(id) {
            Some(n) => match n.params.get(SOCKET_VALUE) {
                Some(v) => Some(*v),
                None => None,
            },
            None => None,
        };
        let value = match pinned {
            Some(v) => Some(v),
            None => socket.default_for(ty),
        };
        match value {
            Some(v) => if v.ty() == ty {
                Some(v)
            } else {
                None
            },
            None => None,
        }
    }

    /// The fields of a block whose names can be used.
    fn fields_in_use(decl: &UserBlockDecl) -> (r: Vec<(WxslIdent, ValueType)>)
        ensures
            text::seq_of(r@) == usable_fields(decl@.fields, decl@.fields.len() as int),
    {
        let ghost fields = decl@.fields;
        let mut entries: Vec<(WxslIdent, ValueType)> = Vec::new();
        let mut i: usize = 0;
        assert(text::seq_of(entries@) =~= usable_fields(fields, 0));
        while i < decl.fields.len()
            invariant
                i <= fields.len() == decl.fields@.len(),
                fields == text::seq_of(decl.fields@),
                text::seq_of(entries@) == usable_fields(fields, i as int),
            decreases fields.len() - i,
        {
            let field = &decl.fields[i];
            assert(fields[i as int] == field@);
            match WxslIdent::new(field.name.as_str()) {
                Some(ident) => {
                    let ghost before = entries@;
                    entries.push((ident, field.ty));
                    assert(text::seq_of(entries@) =~= text::seq_of(before).push((field@.name, field.ty)));
                },
                None => {},
            }
            i += 1;
        }
        entries
    }

    /// The block of the application, where the graph declares a usable one.
    fn usable_block(&self) -> (r: Option<UserBlock>)
        requires
            self@.user_block is Some ==> block_fits(self@.user_block->0),
        ensures
            text::opt_of(r) == (match self@.user_block {
                Some(decl) => block_of(decl),
                None => None,
            }),
    {
        let decl = match &self.user_block {
            Some(d) => d,
            None => {
                return None;
            },
        };
        let name = match WxslIdent::new(decl.name.as_str()) {
            Some(n) => n,
            None => {
                return None;
            },
        };
        assert(self@.user_block == Some(decl@));
        let entries = Self::fields_in_use(decl);
        Some(
            UserBlock {
                struct_name: UserBlock::struct_name_for(&name),
                name,
                layout: BufferLayout::uniform(entries),
            },
        )
    }

    /// What some nodes of the graph ask for: parameters, the values they start
    /// from, textures and samplers, and whether one reads the block.
    fn collect_asked(&self, registry: &NodeRegistry, nodes: &NodeSet) -> (r: (
        Vec<(WxslIdent, ValueType)>,
        TextMap<Value>,
        Vec<(WxslIdent, ValueType)>,
        bool,
    ))
        ensures
            (Asked {
                params: text::seq_of(r.0@),
                defaults: r.1@,
                resources: text::seq_of(r.2@),
                reads_user: r.3,
            }) == asked_by(self@, registry@, nodes@, self@.ids(), self@.ids().len() as int),
    {
        let ghost g = self@;
        let ghost kinds = registry@;
        let ghost ids = g.ids();
        let mut params: Vec<(WxslIdent, ValueType)> = Vec::new();
        let mut defaults: TextMap<Value> = TextMap::new();
        let mut resources: Vec<(WxslIdent, ValueType)> = Vec::new();
        let mut reads_user = false;
        let n: usize = self.nodes.len();
        let mut i: usize = 0;
        assert(text::seq_of(params@) =~= Seq::empty());
        assert(text::seq_of(resources@) =~= Seq::empty());
        while i < n
            invariant
                i <= n == ids.len(),
                g == self@,
                g.nodes == self.nodes@.nodes,
                kinds == registry@,
                ids == g.ids(),
                (Asked {
                    params: text::seq_of(params@),
                    defaults: defaults@,
                    resources: text::seq_of(resources@),
                    reads_user,
                }) == asked_by(g, kinds, nodes@, ids, i as int),
            decreases n - i,
        {
            let id = self.nodes.key_at(i);
            let ghost before = asked_by(g, kinds, nodes@, ids, i as int);
            if nodes.contains(id) {
                match self.definition(registry, id) {
                    Ok(def) => match &def.body {
                        NodeBody::Param => {
                            let ty = if def.outputs.len() > 0 {
                                assert(def@.outputs[0] == def.outputs@[0]@);
                                self.effective_type(id, &def.outputs[0])
                            } else {
                                None
                            };
                            match (self.declared_name(registry, id, SETTING_NAME), ty) {
                                (Some(name), Some(ty)) => {
                                    if !has_name(&params, name.as_str()) {
                                        match self.start_of_param(def, id, ty) {
                                            Some(value) => {
                                                defaults.insert(name.as_str().to_owned(), value);
                                            },
                                            None => {},
                                        }
                                        let ghost held = params@;
                                        params.push((name, ty));
                                        assert(text::seq_of(params@) =~= text::seq_of(held).push((name@, ty)));
                                    }
                                },
                                _ => {},
                            }
                        },
                        NodeBody::Resource => {
                            match self.declared_name(registry, id, SETTING_NAME) {
                                Some(name) => {
                                    if def.outputs.len() > 0 && !has_name(
                                        &resources,
                                        name.as_str(),
                                    ) {
                                        assert(def@.outputs[0] == def.outputs@[0]@);
                                        let ty = def.outputs[0].ty;
                                        let ghost held = resources@;
                                        resources.push((name, ty));
                                        assert(text::seq_of(resources@) =~= text::seq_of(held).push(
                                            (name@, ty),
                                        ));
                                    }
                                },
                                None => {},
                            }
                        },
                        NodeBody::UserRead => {
                            reads_user = true;
                        },
                        _ => {},
                    },
                    Err(_) => {},
                }
            }
            i += 1;
        }
        (params, defaults, resources, reads_user)
    }

    /// Whether what some nodes of the graph ask to be bound can be.
    pub fn is_interface_bindable(&self, registry: &NodeRegistry, nodes: &NodeSet) -> (r: bool)
        ensures
            r == self@.interface_fits(registry@, nodes@),
    {
        let (params, _, resources, reads_user) = self.collect_asked(registry, nodes);
        assert(text::seq_of(resources@).len() == resources@.len());
        let room: usize = (u32::MAX - abi::MATERIAL_RESOURCE_BINDING_BASE) as usize;
        let block_fits = match &self.user_block {
            Some(decl) => {
                assert(self@.user_block == Some(decl@));
                !reads_user || WxslIdent::new(decl.name.as_str()).is_none() || uniform_fits(
                    &Self::fields_in_use(decl),
                )
            },
            None => true,
        };
        self.has_countable_geometry() && uniform_fits(&params) && resources.len() <= room
            && block_fits
    }

    /// Whether what the graph asks to be bound can be.
    pub fn is_within_limits(&self, registry: &NodeRegistry) -> (r: bool)
        ensures
            r == self@.within_limits(registry@),
    {
        self.has_countable_geometry() && match self.outputs(registry) {
            Some(outputs) => {
                let nodes = self.reachable_from(&outputs);
                self.is_interface_bindable(registry, &nodes)
            },
            None => true,
        }
    }

    /// What some nodes of the graph ask to be bound.
    pub fn interface_of(&self, registry: &NodeRegistry, nodes: &NodeSet) -> (r: MaterialInterface)
        requires
            self@.interface_fits(registry@, nodes@),
        ensures
            r@ == interface_asked(self@, registry@, nodes@),
    {
        let (params, defaults, resources, reads_user) = self.collect_asked(registry, nodes);
        let ghost asked = text::seq_of(resources@);
        assert(asked.len() == resources@.len());
        proof {
            resources::lemma_by_name_is_strict();
            sorting::lemma_sorted(asked, resources::by_name());
        }
        let in_order = sort_by_name(resources);
        let ghost s = sorting::sorted(asked, resources::by_name());
        assert(s.len() == in_order@.len());
        let mut bindings: Vec<ResourceBinding> = Vec::new();
        let mut i: usize = 0;
        while i < in_order.len()
            invariant
                i <= s.len() == in_order@.len(),
                abi::MATERIAL_RESOURCE_BINDING_BASE + s.len() <= u32::MAX,
                s == text::seq_of(in_order@),
                bindings@.len() == i,
                forall|j: int|
                    0 <= j < i ==> (#[trigger] bindings@[j])@ == (ResourceBindingView {
                        name: s[j].0,
                        ty: s[j].1,
                        binding: (abi::MATERIAL_RESOURCE_BINDING_BASE + j) as u32,
                    }),
            decreases s.len() - i,
        {
            let (name, ty) = &in_order[i];
            assert(s[i as int] == in_order@[i as int]@);
            bindings.push(
                ResourceBinding {
                    name: name.clone(),
                    ty: *ty,
                    binding: abi::MATERIAL_RESOURCE_BINDING_BASE + i as u32,
                },
            );
            i += 1;
        }
        assert(text::seq_of(bindings@) =~= bound(asked));
        MaterialInterface {
            params: BufferLayout::uniform(params),
            defaults,
            resources: bindings,
            user: if reads_user {
                self.usable_block()
            } else {
                None
            },
            geometry: self.geometry(),
        }
    }

    /// What the graph asks to be bound. Only what an end depends on counts.
    pub fn interface(&self, registry: &NodeRegistry) -> (r: MaterialInterface)
        requires
            self@.within_limits(registry@),
        ensures
            r@ == interface_of_graph(self@, registry@),
    {
        match self.outputs(registry) {
            Some(outputs) => {
                let nodes = self.reachable_from(&outputs);
                self.interface_of(registry, &nodes)
            },
            None => MaterialInterface::default(),
        }
    }
}

} // verus!
