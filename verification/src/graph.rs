//! A material as a typed, acyclic graph of nodes, and what it declares.

use vstd::prelude::*;

use crate::abi;
use crate::copies::{clone_vec, copy_opt};
use crate::error::{GraphError, GraphErrorView};
use crate::float::Float;
use crate::idmap;
use crate::idmap::IdMap;
use crate::lists;
use crate::macros::{MacroSet, MacroValue};
use crate::node::{
    NodeDefinition, NodeDefinitionView, NodeRegistry, Socket, SocketView, Value, ValueType,
};
use crate::text;
use crate::text::{chars_of, is_digit_char, is_same_ignoring_case, same_text, trim};
use crate::textmap::TextMap;
use crate::wxsl;
use crate::wxsl::WxslIdent;

pub use crate::ids::{Edge, EdgeView, NodeId, SocketRef, SocketRefView};
pub use crate::outputs::GraphOutputs;

verus! {

/// In which stage a node is to run.
#[derive(Clone, Copy, Debug, PartialEq, Eq, PartialOrd, Ord, Hash, Structural)]
pub enum StageConstraint {
    /// Wherever the analysis puts it.
    Auto,
    /// In the vertex stage.
    Vertex,
    /// In the fragment stage.
    Fragment,
}

/// Which shader stage a part of the graph is compiled into.
#[derive(Clone, Copy, Debug, PartialEq, Eq, PartialOrd, Ord, Hash, Structural)]
pub enum ShaderStage {
    /// Runs once per vertex.
    Vertex,
    /// Runs once per fragment.
    Fragment,
}

impl View for ShaderStage {
    type V = ShaderStage;

    open spec fn view(&self) -> ShaderStage {
        *self
    }
}

/// A node of a graph: its kind, and what is pinned on it.
#[derive(Debug, PartialEq)]
pub struct Node {
    /// The id of its kind.
    pub def: String,
    /// The values of unconnected inputs, by socket.
    pub params: TextMap<Value>,
    /// The type each type parameter resolved to.
    pub generics: TextMap<ValueType>,
    /// The settings it carries, by name.
    pub settings: TextMap<String>,
    /// A name an editor shows in place of the kind's.
    pub label: Option<String>,
    /// A title colour, as linear RGB.
    pub color: Option<[Float; 3]>,
    /// Its place on an editor's canvas.
    pub position: Option<[Float; 2]>,
    /// The stage it is to run in.
    pub stage: StageConstraint,
}

/// What a [`Node`] stands for.
#[verifier::ext_equal]
pub struct NodeView {
    /// The id of its kind.
    pub def: Seq<char>,
    /// The values of unconnected inputs, by socket.
    pub params: Map<Seq<char>, Value>,
    /// The type each type parameter resolved to.
    pub generics: Map<Seq<char>, ValueType>,
    /// The settings it carries, by name.
    pub settings: Map<Seq<char>, Seq<char>>,
    /// A name an editor shows in place of the kind's.
    pub label: Option<Seq<char>>,
    /// A title colour, as linear RGB.
    pub color: Option<[Float; 3]>,
    /// Its place on an editor's canvas.
    pub position: Option<[Float; 2]>,
    /// The stage it is to run in.
    pub stage: StageConstraint,
}

impl View for Node {
    type V = NodeView;

    open spec fn view(&self) -> NodeView {
        NodeView {
            def: self.def@,
            params: self.params@,
            generics: self.generics@,
            settings: self.settings@,
            label: text::opt_of(self.label),
            color: self.color,
            position: self.position,
            stage: self.stage,
        }
    }
}

impl Clone for Node {
    fn clone(&self) -> (r: Self)
        ensures
            r@ == self@,
    {
        Node {
            def: self.def.clone(),
            params: self.params.copy(),
            generics: self.generics.copy(),
            settings: self.settings.copy(),
            label: copy_opt(&self.label),
            color: self.color,
            position: self.position,
            stage: self.stage,
        }
    }
}

/// A node of a kind with nothing pinned.
pub open spec fn bare_node(def: Seq<char>) -> NodeView {
    NodeView {
        def,
        params: Map::empty(),
        generics: Map::empty(),
        settings: Map::empty(),
        label: None,
        color: None,
        position: None,
        stage: StageConstraint::Auto,
    }
}

impl Node {
    /// A node of a kind with nothing pinned.
    pub fn new(def: &str) -> (r: Self)
        ensures
            r@ == bare_node(def@),
    {
        Node {
            def: def.to_owned(),
            params: TextMap::new(),
            generics: TextMap::new(),
            settings: TextMap::new(),
            label: None,
            color: None,
            position: None,
            stage: StageConstraint::Auto,
        }
    }

    /// Pin the value of an input.
    pub fn with_param(self, socket: &str, value: Value) -> (r: Self)
        ensures
            r@ == (NodeView { params: self@.params.insert(socket@, value), ..self@ }),
    {
        let mut n = self;
        n.params.insert(socket.to_owned(), value);
        n
    }

    /// Give the node a title colour.
    pub fn with_color(self, color: [Float; 3]) -> (r: Self)
        ensures
            r@ == (NodeView { color: Some(color), ..self@ }),
    {
        let mut n = self;
        n.color = Some(color);
        n
    }

    /// Place the node on the canvas.
    pub fn with_position(self, position: [Float; 2]) -> (r: Self)
        ensures
            r@ == (NodeView { position: Some(position), ..self@ }),
    {
        let mut n = self;
        n.position = Some(position);
        n
    }

    /// Pin a setting.
    pub fn with_setting(self, setting: &str, value: &str) -> (r: Self)
        ensures
            r@ == (NodeView { settings: self@.settings.insert(setting@, value@), ..self@ }),
    {
        let mut n = self;
        n.settings.insert(setting.to_owned(), value.to_owned());
        n
    }

    /// Give the node a name.
    pub fn with_label(self, label: &str) -> (r: Self)
        ensures
            r@ == (NodeView { label: Some(label@), ..self@ }),
    {
        let mut n = self;
        n.label = Some(label.to_owned());
        n
    }

    /// Say in which stage the node is to run.
    pub fn with_stage(self, stage: StageConstraint) -> (r: Self)
        ensures
            r@ == (NodeView { stage, ..self@ }),
    {
        let mut n = self;
        n.stage = stage;
        n
    }
}

/// How often an attribute's value changes.
#[derive(Clone, Copy, Debug, PartialEq, Eq, PartialOrd, Ord, Hash, Structural)]
pub enum AttributeFrequency {
    /// Once per vertex, from a vertex buffer.
    Vertex,
    /// Once per instance, from a row of the instance buffer.
    Instance,
    /// Interpolated from what the graph's own vertex stage computes.
    Computed,
}

impl Default for AttributeFrequency {
    fn default() -> (r: Self)
        ensures
            r == AttributeFrequency::Vertex,
    {
        AttributeFrequency::Vertex
    }
}

/// Being the frequency of this name, in whatever case of letters.
pub open spec fn frequency_called(name: Seq<char>) -> spec_fn(AttributeFrequency) -> bool {
    |f: AttributeFrequency| text::same_ignoring_case(f.name()@, name)
}

impl AttributeFrequency {
    /// Every frequency.
    pub const ALL: [AttributeFrequency; 3] = [
        AttributeFrequency::Vertex,
        AttributeFrequency::Instance,
        AttributeFrequency::Computed,
    ];

    /// The name, as documents and editors spell it.
    #[verifier::allow_in_spec]
    pub fn name(self) -> &'static str
        returns
            (match self {
                AttributeFrequency::Vertex => "vertex",
                AttributeFrequency::Instance => "instance",
                AttributeFrequency::Computed => "computed",
            }),
    {
        match self {
            AttributeFrequency::Vertex => "vertex",
            AttributeFrequency::Instance => "instance",
            AttributeFrequency::Computed => "computed",
        }
    }

    /// The frequency of a name, in whatever case of letters and with white
    /// space around it or not.
    pub fn parse(text: &str) -> (r: Option<Self>)
        ensures
            r == lists::first_where(Self::ALL@, frequency_called(text::trimmed(text@))),
    {
        let name = trim(text);
        let ghost s = Self::ALL@;
        let ghost p = frequency_called(name@);
        proof {
            reveal_with_fuel(lists::first_where, 4);
            assert(s.skip(1)[0] == s[1]);
            assert(s.skip(1).skip(1)[0] == s[2]);
        }
        if is_same_ignoring_case(AttributeFrequency::Vertex.name(), name) {
            Some(AttributeFrequency::Vertex)
        } else if is_same_ignoring_case(AttributeFrequency::Instance.name(), name) {
            Some(AttributeFrequency::Instance)
        } else if is_same_ignoring_case(AttributeFrequency::Computed.name(), name) {
            Some(AttributeFrequency::Computed)
        } else {
            None
        }
    }
}

/// A frequency is found again by its own name.
pub proof fn frequency_names_round_trip(f: AttributeFrequency)
    ensures
        lists::first_where(AttributeFrequency::ALL@, frequency_called(text::trimmed(f.name()@))) == Some(f),
{
    reveal_strlit("vertex");
    reveal_strlit("instance");
    reveal_strlit("computed");
    let s = AttributeFrequency::ALL@;
    assert(text::trimmed(f.name()@) == f.name()@);
    reveal_with_fuel(lists::first_where, 4);
    assert(s.skip(1)[0] == s[1]);
    assert(s.skip(1).skip(1)[0] == s[2]);
    assert("instance"@[0] == 'i' && "computed"@[0] == 'c');
    assert("instance"@.len() == 8 && "computed"@.len() == 8 && "vertex"@.len() == 6);
}

/// An attribute a graph asks of its geometry.
#[derive(Debug, PartialEq)]
pub struct AttributeDecl {
    /// The name that nodes read and mesh streams have.
    pub name: String,
    /// Its type.
    pub ty: ValueType,
    /// How often it changes.
    pub frequency: AttributeFrequency,
}

/// What a [`AttributeDecl`] stands for.
#[verifier::ext_equal]
pub struct AttributeDeclView {
    /// The name that nodes read and mesh streams have.
    pub name: Seq<char>,
    /// Its type.
    pub ty: ValueType,
    /// How often it changes.
    pub frequency: AttributeFrequency,
}

impl View for AttributeDecl {
    type V = AttributeDeclView;

    open spec fn view(&self) -> AttributeDeclView {
        AttributeDeclView {
            name: self.name@,
            ty: self.ty,
            frequency: self.frequency,
        }
    }
}

impl Clone for AttributeDecl {
    fn clone(&self) -> (r: Self)
        ensures
            r@ == self@,
    {
        AttributeDecl {
            name: self.name.clone(),
            ty: self.ty,
            frequency: self.frequency,
        }
    }
}

impl AttributeDecl {
    /// A per-vertex attribute.
    pub fn vertex(name: &str, ty: ValueType) -> (r: Self)
        ensures
            r@ == (AttributeDeclView { name: name@, ty, frequency: AttributeFrequency::Vertex }),
    {
        AttributeDecl { name: name.to_owned(), ty, frequency: AttributeFrequency::Vertex }
    }

    /// A per-instance attribute.
    pub fn instance(name: &str, ty: ValueType) -> (r: Self)
        ensures
            r@ == (AttributeDeclView { name: name@, ty, frequency: AttributeFrequency::Instance }),
    {
        AttributeDecl { name: name.to_owned(), ty, frequency: AttributeFrequency::Instance }
    }

    /// An interpolant the graph computes.
    pub fn computed(name: &str, ty: ValueType) -> (r: Self)
        ensures
            r@ == (AttributeDeclView { name: name@, ty, frequency: AttributeFrequency::Computed }),
    {
        AttributeDecl { name: name.to_owned(), ty, frequency: AttributeFrequency::Computed }
    }
}

/// Why a type cannot be that of a per-vertex attribute.
pub open spec fn vertex_attribute_problem(ty: ValueType) -> Option<Seq<char>> {
    if ty.is_float() {
        None
    } else {
        Some(
            ty.wxsl_type()@
                + " cannot be a vertex buffer format; a per-vertex attribute is `f32`, `vec2f`, `vec3f` or `vec4f`"@,
        )
    }
}

/// Why a type cannot be that of a per-vertex attribute, if it cannot.
pub fn vertex_attribute_reason(ty: ValueType) -> (r: Option<String>)
    ensures
        text::opt_of(r) == vertex_attribute_problem(ty),
{
    match ty {
        ValueType::F32 | ValueType::Vec2 | ValueType::Vec3 | ValueType::Vec4 => None,
        other => {
            let mut out = other.wxsl_type().to_owned();
            out.append(
                " cannot be a vertex buffer format; a per-vertex attribute is `f32`, `vec2f`, `vec3f` or `vec4f`",
            );
            Some(out)
        },
    }
}

/// A field of the block an application supplies.
#[derive(Debug, PartialEq)]
pub struct UserField {
    /// The field's name.
    pub name: String,
    /// Its type.
    pub ty: ValueType,
}

/// What a [`UserField`] stands for.
#[verifier::ext_equal]
pub struct UserFieldView {
    /// The field's name.
    pub name: Seq<char>,
    /// Its type.
    pub ty: ValueType,
}

impl View for UserField {
    type V = UserFieldView;

    open spec fn view(&self) -> UserFieldView {
        UserFieldView {
            name: self.name@,
            ty: self.ty,
        }
    }
}

impl Clone for UserField {
    fn clone(&self) -> (r: Self)
        ensures
            r@ == self@,
    {
        UserField {
            name: self.name.clone(),
            ty: self.ty,
        }
    }
}

impl UserField {
    /// Declare a field.
    pub fn new(name: &str, ty: ValueType) -> (r: Self)
        ensures
            r@ == (UserFieldView { name: name@, ty }),
    {
        UserField { name: name.to_owned(), ty }
    }
}

/// The uniform block a graph asks the application to supply.
#[derive(Debug, PartialEq)]
pub struct UserBlockDecl {
    /// The variable it is bound as.
    pub name: String,
    /// Its fields, in declaration order.
    pub fields: Vec<UserField>,
}

/// What a [`UserBlockDecl`] stands for.
#[verifier::ext_equal]
pub struct UserBlockDeclView {
    /// The variable it is bound as.
    pub name: Seq<char>,
    /// Its fields, in declaration order.
    pub fields: Seq<UserFieldView>,
}

impl View for UserBlockDecl {
    type V = UserBlockDeclView;

    open spec fn view(&self) -> UserBlockDeclView {
        UserBlockDeclView {
            name: self.name@,
            fields: text::seq_of(self.fields@),
        }
    }
}

impl Clone for UserBlockDecl {
    fn clone(&self) -> (r: Self)
        ensures
            r@ == self@,
    {
        UserBlockDecl {
            name: self.name.clone(),
            fields: clone_vec(&self.fields),
        }
    }
}

/// The first position from `i` on that holds no digit.
pub open spec fn digits_end(s: Seq<char>, i: int) -> int
    decreases s.len() - i,
{
    if i < s.len() && text::digit_char(s[i]) {
        digits_end(s, i + 1)
    } else {
        i
    }
}

/// Whether a name looks like `n<number>_<socket>`, as node outputs are bound.
pub open spec fn like_a_binding(s: Seq<char>) -> bool {
    &&& s.len() > 0
    &&& s[0] == 'n'
    &&& digits_end(s, 1) > 1
    &&& digits_end(s, 1) < s.len()
    &&& s[digits_end(s, 1)] == '_'
}

/// Whether a name is one that generated modules use for themselves.
pub open spec fn is_reserved(name: Seq<char>) -> bool {
    exists|i: int| 0 <= i < 7 && #[trigger] abi::RESERVED_NAMES@[i]@ == name
}

/// The names that generated modules use for themselves, parted by `, `.
pub open spec fn reserved_list(out: Seq<char>) -> Seq<char> {
    let n = abi::RESERVED_NAMES@;
    out + n[0]@ + ", "@ + n[1]@ + ", "@ + n[2]@ + ", "@ + n[3]@ + ", "@ + n[4]@ + ", "@ + n[5]@
        + ", "@ + n[6]@
}

/// Why a declaration cannot take a name.
pub open spec fn reserved_problem(name: Seq<char>) -> Option<Seq<char>> {
    if is_reserved(name) {
        Some(
            reserved_list("is a name the generated module uses for itself (reserved: "@) + ")"@,
        )
    } else if like_a_binding(name) {
        Some("looks like a generated node binding (`n<number>_<socket>`)"@)
    } else {
        None
    }
}

/// Why a declaration cannot take a name, if it cannot.
pub fn reserved_reason(name: &str) -> (r: Option<String>)
    ensures
        text::opt_of(r) == reserved_problem(name@),
{
    let names = abi::RESERVED_NAMES;
    let mut i: usize = 0;
    while i < 7
        invariant
            i <= 7,
            names@ == abi::RESERVED_NAMES@,
            forall|j: int| 0 <= j < i ==> #[trigger] abi::RESERVED_NAMES@[j]@ != name@,
        decreases 7 - i,
    {
        if same_text(names[i], name) {
            assert(abi::RESERVED_NAMES@[i as int]@ == name@);
            let mut out = "is a name the generated module uses for itself (reserved: ".to_owned();
            out.append(names[0]);
            out.append(", ");
            out.append(names[1]);
            out.append(", ");
            out.append(names[2]);
            out.append(", ");
            out.append(names[3]);
            out.append(", ");
            out.append(names[4]);
            out.append(", ");
            out.append(names[5]);
            out.append(", ");
            out.append(names[6]);
            out.append(")");
            return Some(out);
        }
        i += 1;
    }
    let chars = chars_of(name);
    if chars.len() == 0 || chars[0] != 'n' {
        return None;
    }
    let mut k: usize = 1;
    while k < chars.len() && is_digit_char(chars[k])
        invariant
            1 <= k <= chars@.len(),
            digits_end(chars@, 1) == digits_end(chars@, k as int),
        decreases chars@.len() - k,
    {
        k += 1;
    }
    if k > 1 && k < chars.len() && chars[k] == '_' {
        Some("looks like a generated node binding (`n<number>_<socket>`)".to_owned())
    } else {
        None
    }
}

/// The type of a socket once its node's type parameters are `generics`.
pub open spec fn effective_of(s: SocketView, generics: Map<Seq<char>, ValueType>) -> Option<
    ValueType,
> {
    match s.generic {
        Some(p) => if generics.contains_key(p) {
            Some(generics[p])
        } else {
            None
        },
        None => match s.combine {
            Some(c) => if generics.contains_key(c.a) && generics.contains_key(c.b) {
                c.rule.apply(generics[c.a], generics[c.b])
            } else {
                None
            },
            None => Some(s.ty),
        },
    }
}

/// The type of a socket once its node's type parameters are `generics`.
pub fn effective_type_of(socket: &Socket, generics: &TextMap<ValueType>) -> (r: Option<ValueType>)
    ensures
        r == effective_of(socket@, generics@),
{
    match &socket.generic {
        Some(param) => match generics.get(param.as_str()) {
            Some(ty) => Some(*ty),
            None => None,
        },
        None => match &socket.combine {
            Some(c) => {
                let a = match generics.get(c.a.as_str()) {
                    Some(ty) => *ty,
                    None => {
                        return None;
                    },
                };
                let b = match generics.get(c.b.as_str()) {
                    Some(ty) => *ty,
                    None => {
                        return None;
                    },
                };
                c.rule.apply(a, b)
            },
            None => Some(socket.ty),
        },
    }
}

/// Nodes by id, and the id the next one gets, which no node ever had.
#[derive(Debug, PartialEq)]
pub struct NodeTable {
    entries: IdMap<Node>,
    next_id: u32,
}

/// What a [`NodeTable`] stands for.
#[verifier::ext_equal]
pub struct NodeTableView {
    /// The nodes by id.
    pub nodes: Map<NodeId, NodeView>,
    /// The id the next node gets.
    pub next_id: u32,
}

impl View for NodeTable {
    type V = NodeTableView;

    closed spec fn view(&self) -> NodeTableView {
        NodeTableView { nodes: self.entries@, next_id: self.next_id }
    }
}

impl NodeTable {
    #[verifier::type_invariant]
    spec fn spent(self) -> bool {
        forall|id: NodeId| #[trigger] self.entries@.contains_key(id) ==> id.0 < self.next_id
    }

    /// A table without nodes, which gives ids from `next_id` on.
    pub fn new(next_id: u32) -> (r: Self)
        ensures
            r@ == (NodeTableView { nodes: Map::empty(), next_id }),
    {
        NodeTable { entries: IdMap::new(), next_id }
    }

    /// A table of these nodes, which gives ids from `next_id` on.
    pub(crate) fn of(entries: IdMap<Node>, next_id: u32) -> (r: Self)
        requires
            forall|id: NodeId| #[trigger] entries@.contains_key(id) ==> id.0 < next_id,
        ensures
            r@ == (NodeTableView { nodes: entries@, next_id }),
    {
        NodeTable { entries, next_id }
    }

    /// The number of nodes.
    pub(crate) fn len(&self) -> (r: usize)
        ensures
            r == idmap::in_order(self@.nodes.dom()).len(),
            idmap::lists(idmap::in_order(self@.nodes.dom()), self@.nodes.dom()),
            forall|id: NodeId| #[trigger] self@.nodes.contains_key(id) ==> id.0 < self@.next_id,
    {
        proof {
            use_type_invariant(self);
        }
        self.entries.len()
    }

    /// The id of the node at a place in the order of ids.
    pub(crate) fn key_at(&self, i: usize) -> (r: NodeId)
        requires
            i < idmap::in_order(self@.nodes.dom()).len(),
        ensures
            r == idmap::in_order(self@.nodes.dom())[i as int],
            self@.nodes.contains_key(r),
    {
        self.entries.key_at(i)
    }

    /// The node at a place in the order of ids.
    pub(crate) fn value_at(&self, i: usize) -> (r: &Node)
        requires
            i < idmap::in_order(self@.nodes.dom()).len(),
        ensures
            r@ == self@.nodes[idmap::in_order(self@.nodes.dom())[i as int]],
    {
        self.entries.value_at(i)
    }

    /// The node of an id.
    pub(crate) fn get(&self, id: NodeId) -> (r: Option<&Node>)
        ensures
            match r {
                Some(n) => self@.nodes.contains_key(id) && n@ == self@.nodes[id],
                None => !self@.nodes.contains_key(id),
            },
    {
        self.entries.get(id)
    }

    /// Whether there is a node of an id.
    pub(crate) fn contains_key(&self, id: NodeId) -> (r: bool)
        ensures
            r == self@.nodes.contains_key(id),
    {
        self.entries.contains_key(id)
    }

    /// Take a node in, under the next id.
    pub(crate) fn add(&mut self, node: Node) -> (r: NodeId)
        requires
            old(self)@.next_id < u32::MAX,
        ensures
            r == NodeId(old(self)@.next_id),
            !old(self)@.nodes.contains_key(r),
            final(self)@ == (NodeTableView {
                nodes: old(self)@.nodes.insert(r, node@),
                next_id: (old(self)@.next_id + 1) as u32,
            }),
    {
        proof {
            use_type_invariant(&*self);
        }
        let id = NodeId(self.next_id);
        let mut entries: IdMap<Node> = IdMap::new();
        std::mem::swap(&mut entries, &mut self.entries);
        entries.insert(id, node);
        self.next_id = self.next_id + 1;
        self.entries = entries;
        id
    }

    /// A node, to be changed in place.
    pub(crate) fn get_mut(&mut self, id: NodeId) -> (r: Option<&mut Node>)
        ensures
            match r {
                Some(n) => old(self)@.nodes.contains_key(id) && n@ == old(self)@.nodes[id]
                    && final(self)@ == (NodeTableView {
                    nodes: old(self)@.nodes.insert(id, final(n)@),
                    ..old(self)@
                }),
                None => !old(self)@.nodes.contains_key(id) && final(self)@ == old(self)@,
            },
    {
        proof {
            use_type_invariant(&*self);
        }
        self.entries.get_mut(id)
    }

    /// Put another node in the place of one, answering it.
    pub(crate) fn replace(&mut self, id: NodeId, node: Node) -> (r: Node)
        requires
            old(self)@.nodes.contains_key(id),
        ensures
            r@ == old(self)@.nodes[id],
            final(self)@ == (NodeTableView {
                nodes: old(self)@.nodes.insert(id, node@),
                ..old(self)@
            }),
    {
        proof {
            use_type_invariant(&*self);
        }
        let mut entries: IdMap<Node> = IdMap::new();
        std::mem::swap(&mut entries, &mut self.entries);
        let r = entries.insert(id, node);
        self.entries = entries;
        match r {
            Some(n) => n,
            None => Node::new(""),
        }
    }

    /// Take a node out.
    pub(crate) fn remove(&mut self, id: NodeId) -> (r: Option<Node>)
        ensures
            match r {
                Some(n) => old(self)@.nodes.contains_key(id) && n@ == old(self)@.nodes[id],
                None => !old(self)@.nodes.contains_key(id),
            },
            final(self)@ == (NodeTableView {
                nodes: old(self)@.nodes.remove(id),
                ..old(self)@
            }),
    {
        proof {
            use_type_invariant(&*self);
        }
        let mut entries: IdMap<Node> = IdMap::new();
        std::mem::swap(&mut entries, &mut self.entries);
        let r = entries.remove(id);
        self.entries = entries;
        r
    }
}

impl Clone for NodeTable {
    fn clone(&self) -> (r: Self)
        ensures
            r@ == self@,
    {
        proof {
            use_type_invariant(self);
        }
        NodeTable { entries: self.entries.copy(), next_id: self.next_id }
    }
}

/// A typed, acyclic graph of nodes, and what it declares.
#[derive(Debug, PartialEq)]
pub struct Graph {
    pub(crate) name: String,
    pub(crate) nodes: NodeTable,
    pub(crate) edges: Vec<Edge>,
    pub(crate) macros: MacroSet,
    pub(crate) user_block: Option<UserBlockDecl>,
    pub(crate) attributes: Vec<AttributeDecl>,
}

/// What a [`Graph`] stands for.
#[verifier::ext_equal]
pub struct GraphView {
    /// The graph's name.
    pub name: Seq<char>,
    /// The nodes, by id.
    pub nodes: Map<NodeId, NodeView>,
    /// The edges, in the order they were made.
    pub edges: Seq<EdgeView>,
    /// The macro values it pins.
    pub macros: Map<Seq<char>, MacroValue>,
    /// The block it asks the application for.
    pub user_block: Option<UserBlockDeclView>,
    /// What it asks of its geometry.
    pub attributes: Seq<AttributeDeclView>,
    /// The id the next node gets.
    pub next_id: u32,
}

impl View for Graph {
    type V = GraphView;

    open(crate) spec fn view(&self) -> GraphView {
        GraphView {
            name: self.name@,
            nodes: self.nodes@.nodes,
            edges: text::seq_of(self.edges@),
            macros: self.macros@,
            user_block: text::opt_of(self.user_block),
            attributes: text::seq_of(self.attributes@),
            next_id: self.nodes@.next_id,
        }
    }
}

/// The kinds of node a graph can be made of, by id.
pub type Kinds = Map<Seq<char>, NodeDefinitionView>;

impl GraphView {
    /// Every id is below the one the next node gets, so no id is given twice.
    pub open spec fn ids_spent(self) -> bool {
        forall|id: NodeId| #[trigger] self.nodes.contains_key(id) ==> id.0 < self.next_id
    }

    /// The kind of a node, or why there is none.
    pub open spec fn definition(self, kinds: Kinds, id: NodeId) -> Result<
        NodeDefinitionView,
        GraphErrorView,
    > {
        if !self.nodes.contains_key(id) {
            Err(GraphErrorView::UnknownNode(id))
        } else if !kinds.contains_key(self.nodes[id].def) {
            Err(GraphErrorView::UnknownDefinition { node: id, def: self.nodes[id].def })
        } else {
            Ok(kinds[self.nodes[id].def])
        }
    }

    /// Whether a node is in the graph and of a registered kind.
    pub open spec fn known(self, kinds: Kinds, id: NodeId) -> bool {
        self.nodes.contains_key(id) && kinds.contains_key(self.nodes[id].def)
    }

    /// The kind of a known node.
    pub open spec fn kind(self, kinds: Kinds, id: NodeId) -> NodeDefinitionView {
        kinds[self.nodes[id].def]
    }

    /// The type of a socket of a node, as far as it is settled.
    pub open spec fn effective_type(self, id: NodeId, socket: SocketView) -> Option<ValueType> {
        if self.nodes.contains_key(id) {
            effective_of(socket, self.nodes[id].generics)
        } else {
            None
        }
    }

    /// The edge into an input.
    pub open spec fn edge_into(self, input: SocketRefView) -> Option<EdgeView> {
        lists::first_where(self.edges, edge_to(input))
    }

    /// The first edge out of an output.
    pub open spec fn edge_from(self, output: SocketRefView) -> Option<EdgeView> {
        lists::first_where(self.edges, edge_out_of(output))
    }

    /// The declaration of an attribute.
    pub open spec fn attribute(self, name: Seq<char>) -> Option<AttributeDeclView> {
        lists::first_where(self.attributes, attribute_called(text::trimmed(name)))
    }

    /// The text of a node's setting: its own, or the one its kind starts with.
    pub open spec fn setting(self, kinds: Kinds, id: NodeId, name: Seq<char>) -> Option<Seq<char>> {
        if self.known(kinds, id) {
            match self.kind(kinds, id).setting(name) {
                Some(declared) => Some(
                    if self.nodes[id].settings.contains_key(name) {
                        self.nodes[id].settings[name]
                    } else {
                        declared.default
                    },
                ),
                None => None,
            }
        } else {
            None
        }
    }

    /// The identifier that a node's setting names.
    pub open spec fn declared_name(self, kinds: Kinds, id: NodeId, setting: Seq<char>) -> Option<
        Seq<char>,
    > {
        match self.setting(kinds, id, setting) {
            Some(text) => if wxsl::is_ident(text::trimmed(text)) {
                Some(text::trimmed(text))
            } else {
                None
            },
            None => None,
        }
    }

    /// The nodes, in the order of their ids.
    pub open spec fn ids(self) -> Seq<NodeId> {
        idmap::in_order(self.nodes.dom())
    }

    /// Every kind of node in the graph offers a type for each of its type
    /// parameters.
    pub open spec fn defaults_exist(self, kinds: Kinds) -> bool {
        forall|id: NodeId, i: int|
            #![trigger self.kind(kinds, id).generics[i]]
            self.known(kinds, id) && 0 <= i < self.kind(kinds, id).generics.len() ==> self.kind(
                kinds,
                id,
            ).generics[i].allowed.len() > 0
    }
}

/// Being an edge into this input.
pub open spec fn edge_to(input: SocketRefView) -> spec_fn(EdgeView) -> bool {
    |e: EdgeView| e.to == input
}

/// Being an edge out of this output.
pub open spec fn edge_out_of(output: SocketRefView) -> spec_fn(EdgeView) -> bool {
    |e: EdgeView| e.from == output
}

/// Being the attribute of this name, but for white space around it.
pub open spec fn attribute_called(name: Seq<char>) -> spec_fn(AttributeDeclView) -> bool {
    |d: AttributeDeclView| text::trimmed(d.name) == name
}

/// A graph without nodes.
pub open spec fn empty_graph(name: Seq<char>) -> GraphView {
    GraphView {
        name,
        nodes: Map::empty(),
        edges: Seq::empty(),
        macros: Map::empty(),
        user_block: None,
        attributes: Seq::empty(),
        next_id: 1,
    }
}

impl Graph {
    /// A graph without nodes.
    pub fn new(name: &str) -> (r: Self)
        ensures
            r@ == empty_graph(name@),
    {
        let edges: Vec<Edge> = Vec::new();
        let attributes: Vec<AttributeDecl> = Vec::new();
        assert(text::seq_of(edges@) =~= Seq::<EdgeView>::empty());
        assert(text::seq_of(attributes@) =~= Seq::<AttributeDeclView>::empty());
        Graph {
            name: name.to_owned(),
            nodes: NodeTable::new(1),
            edges,
            macros: MacroSet::new(),
            user_block: None,
            attributes,
        }
    }

    /// The graph's name.
    pub fn name(&self) -> (r: &str)
        ensures
            r@ == self@.name,
    {
        self.name.as_str()
    }

    /// Rename the graph.
    pub fn set_name(&mut self, name: &str)
        ensures
            final(self)@ == (GraphView { name: name@, ..old(self)@ }),
    {
        self.name = name.to_owned();
    }

    /// Add a node, which gets an id that no node of this graph ever had.
    pub fn add(&mut self, node: Node) -> (r: NodeId)
        requires
            old(self)@.next_id < u32::MAX,
        ensures
            r == NodeId(old(self)@.next_id),
            !old(self)@.nodes.contains_key(r),
            final(self)@ == (GraphView {
                nodes: old(self)@.nodes.insert(r, node@),
                next_id: (old(self)@.next_id + 1) as u32,
                ..old(self)@
            }),
    {
        self.nodes.add(node)
    }

    /// Add a node of a kind with nothing pinned.
    pub fn add_node(&mut self, def: &str) -> (r: NodeId)
        requires
            old(self)@.next_id < u32::MAX,
        ensures
            r == NodeId(old(self)@.next_id),
            !old(self)@.nodes.contains_key(r),
            final(self)@ == (GraphView {
                nodes: old(self)@.nodes.insert(r, bare_node(def@)),
                next_id: (old(self)@.next_id + 1) as u32,
                ..old(self)@
            }),
    {
        self.add(Node::new(def))
    }

    /// The node of an id.
    pub fn node(&self, id: NodeId) -> (r: Option<&Node>)
        ensures
            match r {
                Some(n) => self@.nodes.contains_key(id) && n@ == self@.nodes[id],
                None => !self@.nodes.contains_key(id),
            },
    {
        self.nodes.get(id)
    }

    /// A node, to be changed in place.
    pub fn node_mut(&mut self, id: NodeId) -> (r: Option<&mut Node>)
        ensures
            match r {
                Some(n) => old(self)@.nodes.contains_key(id) && n@ == old(self)@.nodes[id]
                    && final(self)@ == (GraphView {
                    nodes: old(self)@.nodes.insert(id, final(n)@),
                    ..old(self)@
                }),
                None => !old(self)@.nodes.contains_key(id) && final(self)@ == old(self)@,
            },
    {
        self.nodes.get_mut(id)
    }

    /// Every node with its id, in the order of the ids.
    pub fn nodes(&self) -> (r: Vec<(NodeId, &Node)>)
        ensures
            r@.len() == self@.ids().len(),
            idmap::lists(self@.ids(), self@.nodes.dom()),
            forall|i: int|
                0 <= i < r@.len() ==> (#[trigger] r@[i]).0 == self@.ids()[i] && r@[i].1@
                    == self@.nodes[self@.ids()[i]],
    {
        let mut r: Vec<(NodeId, &Node)> = Vec::new();
        let n: usize = self.nodes.len();
        let mut i: usize = 0;
        while i < n
            invariant
                i <= n == self@.ids().len(),
                r@.len() == i,
                self@.nodes == self.nodes@.nodes,
                forall|j: int|
                    0 <= j < i ==> (#[trigger] r@[j]).0 == self@.ids()[j] && r@[j].1@
                        == self@.nodes[self@.ids()[j]],
            decreases n - i,
        {
            r.push((self.nodes.key_at(i), self.nodes.value_at(i)));
            i += 1;
        }
        r
    }

    /// The number of nodes.
    pub fn node_count(&self) -> (r: usize)
        ensures
            self@.ids_spent(),
            r == self@.ids().len(),
            idmap::lists(self@.ids(), self@.nodes.dom()),
    {
        self.nodes.len()
    }

    /// Every edge, in the order they were made.
    pub fn edges(&self) -> (r: &Vec<Edge>)
        ensures
            text::seq_of(r@) == self@.edges,
    {
        &self.edges
    }

    /// Pin the value of an input, answering the one it had; nothing happens
    /// where there is no such node.
    pub fn set_param(&mut self, node: NodeId, socket: &str, value: Value) -> (r: Option<Value>)
        ensures
            old(self)@.nodes.contains_key(node) ==> {
                let before = old(self)@.nodes[node];
                &&& final(self)@ == (GraphView {
                    nodes: old(self)@.nodes.insert(
                        node,
                        NodeView { params: before.params.insert(socket@, value), ..before },
                    ),
                    ..old(self)@
                })
                &&& r == (if before.params.contains_key(socket@) {
                    Some(before.params[socket@])
                } else {
                    None
                })
            },
            !old(self)@.nodes.contains_key(node) ==> r is None && final(self)@ == old(self)@,
    {
        match self.nodes.get(node) {
            Some(n) => {
                let mut n = n.clone();
                let r = n.params.insert(socket.to_owned(), value);
                self.nodes.replace(node, n);
                r
            },
            None => None,
        }
    }

    /// The macro values this graph pins.
    pub fn macros(&self) -> (r: &MacroSet)
        ensures
            r@ == self@.macros,
    {
        &self.macros
    }

    /// Pin a macro, answering the value it had.
    pub fn set_macro(&mut self, name: &str, value: MacroValue) -> (r: Option<MacroValue>)
        ensures
            final(self)@ == (GraphView {
                macros: old(self)@.macros.insert(name@, value),
                ..old(self)@
            }),
            r == (if old(self)@.macros.contains_key(name@) {
                Some(old(self)@.macros[name@])
            } else {
                None
            }),
    {
        self.macros.set(name, value)
    }

    /// Unpin a macro, answering the value it had.
    pub fn unset_macro(&mut self, name: &str) -> (r: Option<MacroValue>)
        ensures
            final(self)@ == (GraphView { macros: old(self)@.macros.remove(name@), ..old(self)@ }),
            r == (if old(self)@.macros.contains_key(name@) {
                Some(old(self)@.macros[name@])
            } else {
                None
            }),
    {
        self.macros.unset(name)
    }

    /// Pin other macro values in place of all.
    pub fn set_macros(&mut self, macros: MacroSet)
        ensures
            final(self)@ == (GraphView { macros: macros@, ..old(self)@ }),
    {
        self.macros = macros;
    }

    /// The block this graph asks the application for.
    pub fn user_block(&self) -> (r: Option<&UserBlockDecl>)
        ensures
            text::opt_of(r) == self@.user_block,
    {
        match &self.user_block {
            Some(block) => Some(block),
            None => None,
        }
    }

    /// Ask the application for a block.
    pub fn set_user_block(&mut self, block: UserBlockDecl)
        ensures
            final(self)@ == (GraphView { user_block: Some(block@), ..old(self)@ }),
    {
        self.user_block = Some(block);
    }

    /// Ask the application for no block, answering the one that was asked for.
    pub fn clear_user_block(&mut self) -> (r: Option<UserBlockDecl>)
        ensures
            final(self)@ == (GraphView { user_block: None, ..old(self)@ }),
            text::opt_of(r) == old(self)@.user_block,
    {
        self.user_block.take()
    }

    /// The stage a node is to run in.
    pub fn stage(&self, node: NodeId) -> (r: StageConstraint)
        ensures
            r == stage_of_node(self@, node),
    {
        match self.nodes.get(node) {
            Some(n) => n.stage,
            None => StageConstraint::Auto,
        }
    }

    /// Say in which stage a node is to run; nothing happens where there is no
    /// such node.
    pub fn set_stage(&mut self, node: NodeId, stage: StageConstraint)
        ensures
            old(self)@.nodes.contains_key(node) ==> final(self)@ == (GraphView {
                nodes: old(self)@.nodes.insert(
                    node,
                    NodeView { stage, ..old(self)@.nodes[node] },
                ),
                ..old(self)@
            }),
            !old(self)@.nodes.contains_key(node) ==> final(self)@ == old(self)@,
    {
        match self.nodes.get(node) {
            Some(n) => {
                let mut n = n.clone();
                n.stage = stage;
                self.nodes.replace(node, n);
            },
            None => {},
        }
    }

    /// The text of a node's setting: its own, or the one its kind starts with.
    /// A setting the kind does not have has no text.
    pub fn setting<'a>(&'a self, registry: &'a NodeRegistry, node: NodeId, name: &str) -> (r: Option<
        &'a str,
    >)
        ensures
            text::opt_of(r) == self@.setting(registry@, node, name@),
    {
        let instance = match self.nodes.get(node) {
            Some(n) => n,
            None => {
                return None;
            },
        };
        let def = match registry.get(instance.def.as_str()) {
            Some(d) => d,
            None => {
                return None;
            },
        };
        let declared = match def.setting(name) {
            Some(d) => d,
            None => {
                return None;
            },
        };
        match instance.settings.get(name) {
            Some(text) => Some(text.as_str()),
            None => Some(declared.default.as_str()),
        }
    }

    /// Pin a setting of a node; nothing happens where there is no such node.
    pub fn set_setting(&mut self, node: NodeId, name: &str, value: &str)
        ensures
            old(self)@.nodes.contains_key(node) ==> {
                let before = old(self)@.nodes[node];
                final(self)@ == (GraphView {
                    nodes: old(self)@.nodes.insert(
                        node,
                        NodeView { settings: before.settings.insert(name@, value@), ..before },
                    ),
                    ..old(self)@
                })
            },
            !old(self)@.nodes.contains_key(node) ==> final(self)@ == old(self)@,
    {
        match self.nodes.get(node) {
            Some(n) => {
                let mut n = n.clone();
                n.settings.insert(name.to_owned(), value.to_owned());
                self.nodes.replace(node, n);
            },
            None => {},
        }
    }

    /// What this graph asks of its geometry.
    pub fn attributes(&self) -> (r: &Vec<AttributeDecl>)
        ensures
            text::seq_of(r@) == self@.attributes,
    {
        &self.attributes
    }

    /// The declaration of an attribute.
    pub fn attribute(&self, name: &str) -> (r: Option<&AttributeDecl>)
        ensures
            text::opt_of(r) == self@.attribute(name@),
    {
        let wanted = trim(name);
        let ghost s = self@.attributes;
        let ghost p = attribute_called(wanted@);
        let mut i: usize = 0;
        assert(s.skip(0) =~= s);
        while i < self.attributes.len()
            invariant
                i <= s.len() == self.attributes@.len(),
                s == text::seq_of(self.attributes@),
                s == self@.attributes,
                wanted@ == text::trimmed(name@),
                p == attribute_called(wanted@),
                lists::first_where(s, p) == lists::first_where(s.skip(i as int), p),
            decreases s.len() - i,
        {
            proof {
                lists::lemma_first_where_skip(s, p, i as int);
            }
            if same_text(trim(self.attributes[i].name.as_str()), wanted) {
                return Some(&self.attributes[i]);
            }
            i += 1;
        }
        None
    }

    /// Declare an attribute, in place of any of the same name.
    pub fn declare_attribute(&mut self, decl: AttributeDecl)
        ensures
            final(self)@ == (GraphView {
                attributes: without_attribute(
                    old(self)@.attributes,
                    text::trimmed(decl@.name),
                    old(self)@.attributes.len() as int,
                ).push(decl@),
                ..old(self)@
            }),
    {
        let name = trim(decl.name.as_str()).to_owned();
        let ghost s = self@.attributes;
        let mut kept: Vec<AttributeDecl> = Vec::new();
        let mut i: usize = 0;
        assert(text::seq_of(kept@) =~= without_attribute(s, name@, 0));
        while i < self.attributes.len()
            invariant
                i <= s.len() == self.attributes@.len(),
                s == text::seq_of(self.attributes@),
                text::seq_of(kept@) == without_attribute(s, name@, i as int),
            decreases s.len() - i,
        {
            if !same_text(trim(self.attributes[i].name.as_str()), name.as_str()) {
                let ghost before = kept@;
                kept.push(self.attributes[i].clone());
                assert(text::seq_of(kept@) =~= text::seq_of(before).push(s[i as int]));
            }
            i += 1;
        }
        let ghost before = kept@;
        kept.push(decl);
        assert(text::seq_of(kept@) =~= text::seq_of(before).push(decl@));
        self.attributes = kept;
    }

    /// Drop the declaration of an attribute, answering it.
    pub fn remove_attribute(&mut self, name: &str) -> (r: Option<AttributeDecl>)
        ensures
            match attribute_index(old(self)@.attributes, text::trimmed(name@), 0) {
                Some(i) => text::opt_of(r) == Some(old(self)@.attributes[i]) && final(self)@
                    == (GraphView { attributes: old(self)@.attributes.remove(i), ..old(self)@ }),
                None => r is None && final(self)@ == old(self)@,
            },
    {
        let wanted = trim(name);
        let ghost s = self@.attributes;
        let mut i: usize = 0;
        while i < self.attributes.len()
            invariant
                i <= s.len() == self.attributes@.len(),
                s == text::seq_of(self.attributes@),
                s == old(self)@.attributes,
                self@ == old(self)@,
                wanted@ == text::trimmed(name@),
                attribute_index(s, wanted@, 0) == attribute_index(s, wanted@, i as int),
            decreases s.len() - i,
        {
            if same_text(trim(self.attributes[i].name.as_str()), wanted) {
                let ghost before = self.attributes@;
                let r = self.attributes.remove(i);
                assert(text::seq_of(self.attributes@) =~= s.remove(i as int));
                return Some(r);
            }
            i += 1;
        }
        None
    }

    /// Ask something else of the geometry.
    pub fn set_attributes(&mut self, attributes: Vec<AttributeDecl>)
        ensures
            final(self)@ == (GraphView { attributes: text::seq_of(attributes@), ..old(self)@ }),
    {
        self.attributes = attributes;
    }

    /// The kind of a node, or why there is none.
    pub fn definition<'r>(&self, registry: &'r NodeRegistry, id: NodeId) -> (r: Result<
        &'r NodeDefinition,
        GraphError,
    >)
        ensures
            match (r, self@.definition(registry@, id)) {
                (Ok(d), Ok(v)) => d@ == v,
                (Err(e), Err(v)) => e@ == v,
                _ => false,
            },
            r is Ok <==> self@.known(registry@, id),
            r is Ok ==> r->Ok_0@ == self@.kind(registry@, id),
    {
        match self.nodes.get(id) {
            None => Err(GraphError::UnknownNode(id)),
            Some(node) => match registry.get(node.def.as_str()) {
                Some(d) => Ok(&**d),
                None => Err(GraphError::UnknownDefinition { node: id, def: node.def.clone() }),
            },
        }
    }

    /// The type of a socket of a node, as far as it is settled.
    pub fn effective_type(&self, node: NodeId, socket: &Socket) -> (r: Option<ValueType>)
        ensures
            r == self@.effective_type(node, socket@),
    {
        match self.nodes.get(node) {
            Some(n) => effective_type_of(socket, &n.generics),
            None => None,
        }
    }

    /// The type a type parameter of a node resolved to.
    pub fn generic_type(&self, node: NodeId, param: &str) -> (r: Option<ValueType>)
        ensures
            r == generic_of(self@, node, param@),
    {
        match self.nodes.get(node) {
            Some(n) => match n.generics.get(param) {
                Some(ty) => Some(*ty),
                None => None,
            },
            None => None,
        }
    }

    /// The edge into an input.
    pub fn edge_into(&self, input: &SocketRef) -> (r: Option<&Edge>)
        ensures
            text::opt_of(r) == self@.edge_into(input@),
    {
        let ghost s = self@.edges;
        let ghost p = edge_to(input@);
        let mut i: usize = 0;
        assert(s.skip(0) =~= s);
        while i < self.edges.len()
            invariant
                i <= s.len() == self.edges@.len(),
                s == text::seq_of(self.edges@),
                p == edge_to(input@),
                lists::first_where(s, p) == lists::first_where(s.skip(i as int), p),
            decreases s.len() - i,
        {
            proof {
                lists::lemma_first_where_skip(s, p, i as int);
            }
            if self.edges[i].to.same(input) {
                return Some(&self.edges[i]);
            }
            i += 1;
        }
        None
    }

    /// The first edge out of an output.
    pub fn edge_from(&self, output: &SocketRef) -> (r: Option<&Edge>)
        ensures
            text::opt_of(r) == self@.edge_from(output@),
    {
        let ghost s = self@.edges;
        let ghost p = edge_out_of(output@);
        let mut i: usize = 0;
        assert(s.skip(0) =~= s);
        while i < self.edges.len()
            invariant
                i <= s.len() == self.edges@.len(),
                s == text::seq_of(self.edges@),
                p == edge_out_of(output@),
                lists::first_where(s, p) == lists::first_where(s.skip(i as int), p),
            decreases s.len() - i,
        {
            proof {
                lists::lemma_first_where_skip(s, p, i as int);
            }
            if self.edges[i].from.same(output) {
                return Some(&self.edges[i]);
            }
            i += 1;
        }
        None
    }

    /// Every edge out of a node, in the order they were made.
    pub fn edges_from(&self, node: NodeId) -> (r: Vec<&Edge>)
        ensures
            text::seq_of(r@) == edges_leaving(self@.edges, node, self@.edges.len() as int),
    {
        let ghost s = self@.edges;
        let mut r: Vec<&Edge> = Vec::new();
        let mut i: usize = 0;
        assert(text::seq_of(r@) =~= edges_leaving(s, node, 0));
        while i < self.edges.len()
            invariant
                i <= s.len() == self.edges@.len(),
                s == text::seq_of(self.edges@),
                text::seq_of(r@) == edges_leaving(s, node, i as int),
            decreases s.len() - i,
        {
            if self.edges[i].from.node.0 == node.0 {
                let ghost before = r@;
                r.push(&self.edges[i]);
                assert(text::seq_of(r@) =~= text::seq_of(before).push(s[i as int]));
            }
            i += 1;
        }
        r
    }

    /// Every edge into a node, in the order they were made.
    pub fn edges_into(&self, node: NodeId) -> (r: Vec<&Edge>)
        ensures
            text::seq_of(r@) == edges_entering(self@.edges, node, self@.edges.len() as int),
    {
        let ghost s = self@.edges;
        let mut r: Vec<&Edge> = Vec::new();
        let mut i: usize = 0;
        assert(text::seq_of(r@) =~= edges_entering(s, node, 0));
        while i < self.edges.len()
            invariant
                i <= s.len() == self.edges@.len(),
                s == text::seq_of(self.edges@),
                text::seq_of(r@) == edges_entering(s, node, i as int),
            decreases s.len() - i,
        {
            if self.edges[i].to.node.0 == node.0 {
                let ghost before = r@;
                r.push(&self.edges[i]);
                assert(text::seq_of(r@) =~= text::seq_of(before).push(s[i as int]));
            }
            i += 1;
        }
        r
    }

    /// The identifier that a node's setting names.
    pub(crate) fn declared_name(&self, registry: &NodeRegistry, node: NodeId, setting: &str) -> (r:
        Option<WxslIdent>)
        ensures
            text::opt_of(r) == self@.declared_name(registry@, node, setting@),
    {
        match self.setting(registry, node, setting) {
            Some(text) => WxslIdent::new(trim(text)),
            None => None,
        }
    }

    /// The declared attributes of one frequency that have usable names.
    pub(crate) fn declared_attributes(&self, frequency: AttributeFrequency) -> (r: Vec<
        (WxslIdent, ValueType),
    >)
        ensures
            text::seq_of(r@) == attributes_of(
                self@.attributes,
                frequency,
                self@.attributes.len() as int,
            ),
            r@.len() <= self@.attributes.len(),
    {
        let ghost s = self@.attributes;
        let mut r: Vec<(WxslIdent, ValueType)> = Vec::new();
        let mut i: usize = 0;
        assert(text::seq_of(r@) =~= attributes_of(s, frequency, 0));
        while i < self.attributes.len()
            invariant
                i <= s.len() == self.attributes@.len(),
                s == text::seq_of(self.attributes@),
                r@.len() <= i,
                text::seq_of(r@) == attributes_of(s, frequency, i as int),
            decreases s.len() - i,
        {
            if self.attributes[i].frequency == frequency {
                match WxslIdent::new(trim(self.attributes[i].name.as_str())) {
                    Some(name) => {
                        let ghost before = r@;
                        r.push((name, self.attributes[i].ty));
                        assert(text::seq_of(r@) =~= text::seq_of(before).push(
                            (text::trimmed(s[i as int].name), s[i as int].ty),
                        ));
                    },
                    None => {},
                }
            }
            i += 1;
        }
        r
    }
}

/// The first `n` declarations without those of a name.
pub open spec fn without_attribute(s: Seq<AttributeDeclView>, name: Seq<char>, n: int) -> Seq<
    AttributeDeclView,
>
    decreases n,
{
    if n <= 0 {
        Seq::empty()
    } else {
        let before = without_attribute(s, name, n - 1);
        if text::trimmed(s[n - 1].name) == name {
            before
        } else {
            before.push(s[n - 1])
        }
    }
}

/// The first position from `i` on at which an attribute of a name is declared.
pub open spec fn attribute_index(s: Seq<AttributeDeclView>, name: Seq<char>, i: int) -> Option<int>
    decreases s.len() - i,
{
    if i >= s.len() {
        None
    } else if text::trimmed(s[i].name) == name {
        Some(i)
    } else {
        attribute_index(s, name, i + 1)
    }
}

/// The stage a node is to run in.
pub open spec fn stage_of_node(g: GraphView, id: NodeId) -> StageConstraint {
    if g.nodes.contains_key(id) {
        g.nodes[id].stage
    } else {
        StageConstraint::Auto
    }
}

/// The type a type parameter of a node resolved to.
pub open spec fn generic_of(g: GraphView, id: NodeId, param: Seq<char>) -> Option<ValueType> {
    if g.nodes.contains_key(id) && g.nodes[id].generics.contains_key(param) {
        Some(g.nodes[id].generics[param])
    } else {
        None
    }
}

/// The edges out of a node among the first `n`.
pub open spec fn edges_leaving(s: Seq<EdgeView>, node: NodeId, n: int) -> Seq<EdgeView>
    decreases n,
{
    if n <= 0 {
        Seq::empty()
    } else {
        let before = edges_leaving(s, node, n - 1);
        if s[n - 1].from.node == node {
            before.push(s[n - 1])
        } else {
            before
        }
    }
}

/// The edges into a node among the first `n`.
pub open spec fn edges_entering(s: Seq<EdgeView>, node: NodeId, n: int) -> Seq<EdgeView>
    decreases n,
{
    if n <= 0 {
        Seq::empty()
    } else {
        let before = edges_entering(s, node, n - 1);
        if s[n - 1].to.node == node {
            before.push(s[n - 1])
        } else {
            before
        }
    }
}

/// The declarations of one frequency that have usable names, among the first
/// `n`.
pub open spec fn attributes_of(
    s: Seq<AttributeDeclView>,
    frequency: AttributeFrequency,
    n: int,
) -> Seq<(Seq<char>, ValueType)>
    decreases n,
{
    if n <= 0 {
        Seq::empty()
    } else {
        let before = attributes_of(s, frequency, n - 1);
        let d = s[n - 1];
        if d.frequency == frequency && wxsl::is_ident(text::trimmed(d.name)) {
            before.push((text::trimmed(d.name), d.ty))
        } else {
            before
        }
    }
}

impl Default for Graph {
    fn default() -> (r: Self)
        ensures
            r@ == (GraphView { next_id: 0, ..empty_graph(Seq::empty()) }),
    {
        let mut g = Graph::new("");
        proof {
            reveal_strlit("");
        }
        g.nodes = NodeTable::new(0);
        assert(g@ =~= (GraphView { next_id: 0, ..empty_graph(Seq::empty()) }));
        g
    }
}

impl Clone for Graph {
    fn clone(&self) -> (r: Self)
        ensures
            r@ == self@,
    {
        Graph {
            name: self.name.clone(),
            nodes: self.nodes.clone(),
            edges: clone_vec(&self.edges),
            macros: self.macros.clone(),
            user_block: copy_opt(&self.user_block),
            attributes: clone_vec(&self.attributes),
        }
    }
}

} // verus!
