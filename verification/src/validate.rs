//! Whether a graph holds together, and everything that is wrong with it if not.

use vstd::prelude::*;

use crate::abi;
use crate::copies::copy_vec;
use crate::error::{Direction, GraphError, GraphErrorView, GraphErrors};
use crate::graph;
use crate::graph::{
    reserved_reason, vertex_attribute_reason, AttributeDecl, AttributeDeclView, AttributeFrequency,
    Graph, GraphView, Kinds, Node, NodeId, SocketRef, SocketRefView, UserBlockDecl,
    UserBlockDeclView, UserField, UserFieldView,
};
use crate::graph_macros;
use crate::idmap;
use crate::interface;
use crate::lists;
use crate::node;
use crate::node::{
    GenericParamView, NodeBody, NodeBodyView, NodeDefinition, NodeDefinitionView, NodeRegistry,
    Socket, SocketView, ValueType, SETTING_FIELD, SETTING_NAME,
};
use crate::outputs;
use crate::outputs::Terminal;
use crate::resources;
use crate::stages;
use crate::stages::analyze;
use crate::text;
use crate::text::{decimal_text, push_number, same_text, trim};
use crate::textmap;
use crate::textmap::TextMap;
use crate::topology;
use crate::traversal;
use crate::typing;
use crate::wiring;
use crate::wxsl;
use crate::wxsl::WxslIdent;

verus! {

/// Add a problem to those found.
fn report(errors: &mut Vec<GraphError>, error: GraphError)
    ensures
        text::seq_of(final(errors)@) == text::seq_of(old(errors)@).push(error@),
{
    let ghost before = errors@;
    errors.push(error);
    assert(text::seq_of(errors@) =~= text::seq_of(before).push(error@));
}

/// Text between backquotes, and what follows it.
pub open spec fn quoted(name: Seq<char>, rest: Seq<char>) -> Seq<char> {
    "`"@ + name + rest
}

/// Text between backquotes, and what follows it.
fn quote(name: &str, rest: &str) -> (r: String)
    ensures
        r@ == quoted(name@, rest@),
{
    let mut out = "`".to_owned();
    out.append(name);
    out.append(rest);
    out
}

/// Text between backquotes, what follows it, a type, and the end.
fn quote_type(name: &str, middle: &str, ty: ValueType, end: &str) -> (r: String)
    ensures
        r@ == quoted(name@, middle@) + ty.wxsl_type()@ + end@,
{
    let mut out = quote(name, middle);
    out.append(ty.wxsl_type());
    out.append(end);
    out
}

// ---------------------------------------------------------------------------
// One node at a time

/// The problems with the first `n` of a node's pinned values, behind others.
pub open spec fn param_errors(
    errors: Seq<GraphErrorView>,
    g: GraphView,
    d: NodeDefinitionView,
    id: NodeId,
    names: Seq<Seq<char>>,
    n: int,
) -> Seq<GraphErrorView>
    decreases n,
{
    if n <= 0 {
        errors
    } else {
        let before = param_errors(errors, g, d, id, names, n - 1);
        let name = names[n - 1];
        let supplied = g.nodes[id].params[name].ty();
        match d.input(name) {
            None => before.push(GraphErrorView::UnknownParam { node: id, param: name }),
            Some(s) => match g.effective_type(id, s) {
                Some(expected) => if expected != supplied {
                    before.push(
                        GraphErrorView::ParamTypeMismatch {
                            socket: SocketRefView { node: id, socket: name },
                            supplied,
                            expected,
                        },
                    )
                } else {
                    before
                },
                None => before,
            },
        }
    }
}

/// The type parameters among the first `n` that a node has not resolved,
/// behind other problems.
pub open spec fn unresolved_errors(
    errors: Seq<GraphErrorView>,
    g: GraphView,
    id: NodeId,
    params: Seq<GenericParamView>,
    n: int,
) -> Seq<GraphErrorView>
    decreases n,
{
    if n <= 0 {
        errors
    } else {
        let before = unresolved_errors(errors, g, id, params, n - 1);
        if g.nodes[id].generics.contains_key(params[n - 1].name) {
            before
        } else {
            before.push(
                GraphErrorView::UnresolvedGeneric { node: id, param: params[n - 1].name },
            )
        }
    }
}

/// The sockets among the first `n` whose parameters do not combine, behind
/// other problems.
pub open spec fn combine_errors(
    errors: Seq<GraphErrorView>,
    g: GraphView,
    id: NodeId,
    sockets: Seq<SocketView>,
    n: int,
) -> Seq<GraphErrorView>
    decreases n,
{
    if n <= 0 {
        errors
    } else {
        let before = combine_errors(errors, g, id, sockets, n - 1);
        let types = g.nodes[id].generics;
        match sockets[n - 1].combine {
            Some(c) => if types.contains_key(c.a) && types.contains_key(c.b) && c.rule.apply(
                types[c.a],
                types[c.b],
            ) is None {
                before.push(
                    GraphErrorView::IncompatibleGenerics {
                        node: id,
                        socket: sockets[n - 1].name,
                        rule: c.rule,
                        a: (c.a, types[c.a]),
                        b: (c.b, types[c.b]),
                    },
                )
            } else {
                before
            },
            None => before,
        }
    }
}

/// The problems with what a node pins and resolves, behind others.
pub open spec fn node_errors(
    errors: Seq<GraphErrorView>,
    g: GraphView,
    kinds: Kinds,
    id: NodeId,
) -> Seq<GraphErrorView> {
    if g.known(kinds, id) {
        let d = g.kind(kinds, id);
        let names = textmap::in_order(g.nodes[id].params.dom());
        let pinned = param_errors(errors, g, d, id, names, names.len() as int);
        let open = unresolved_errors(pinned, g, id, d.generics, d.generics.len() as int);
        let ins = combine_errors(open, g, id, d.inputs, d.inputs.len() as int);
        combine_errors(ins, g, id, d.outputs, d.outputs.len() as int)
    } else {
        errors.push(GraphErrorView::UnknownDefinition { node: id, def: g.nodes[id].def })
    }
}

/// The problems with what the first `n` of these nodes pin and resolve.
pub open spec fn all_node_errors(
    errors: Seq<GraphErrorView>,
    g: GraphView,
    kinds: Kinds,
    ids: Seq<NodeId>,
    n: int,
) -> Seq<GraphErrorView>
    decreases n,
{
    if n <= 0 {
        errors
    } else {
        node_errors(all_node_errors(errors, g, kinds, ids, n - 1), g, kinds, ids[n - 1])
    }
}

impl Graph {
    /// Report the problems with a node's pinned values.
    fn check_params(
        &self,
        id: NodeId,
        node: &Node,
        def: &NodeDefinition,
        errors: &mut Vec<GraphError>,
    )
        requires
            self@.nodes.contains_key(id),
            node@ == self@.nodes[id],
        ensures
            text::seq_of(final(errors)@) == param_errors(
                text::seq_of(old(errors)@),
                self@,
                def@,
                id,
                textmap::in_order(node@.params.dom()),
                textmap::in_order(node@.params.dom()).len() as int,
            ),
    {
        let ghost g = self@;
        let ghost start = text::seq_of(errors@);
        let ghost names = textmap::in_order(node@.params.dom());
        let n: usize = node.params.len();
        let mut i: usize = 0;
        while i < n
            invariant
                i <= n == names.len(),
                g == self@,
                node@ == g.nodes[id],
                names == textmap::in_order(node@.params.dom()),
                text::seq_of(errors@) == param_errors(start, g, def@, id, names, i as int),
            decreases n - i,
        {
            let name = node.params.key_at(i);
            let value = *node.params.value_at(i);
            match def.input(name) {
                None => {
                    report(errors, GraphError::UnknownParam { node: id, param: name.to_owned() });
                },
                Some(socket) => match self.effective_type(id, socket) {
                    Some(expected) => {
                        if expected != value.ty() {
                            report(
                                errors,
                                GraphError::ParamTypeMismatch {
                                    socket: SocketRef::new(id, name),
                                    supplied: value.ty(),
                                    expected,
                                },
                            );
                        }
                    },
                    None => {},
                },
            }
            i += 1;
        }
    }

    /// Report the sockets whose parameters do not combine.
    fn check_combined(
        &self,
        id: NodeId,
        node: &Node,
        sockets: &Vec<Socket>,
        errors: &mut Vec<GraphError>,
    )
        requires
            self@.nodes.contains_key(id),
            node@ == self@.nodes[id],
        ensures
            text::seq_of(final(errors)@) == combine_errors(
                text::seq_of(old(errors)@),
                self@,
                id,
                text::seq_of(sockets@),
                sockets@.len() as int,
            ),
    {
        let ghost g = self@;
        let ghost start = text::seq_of(errors@);
        let ghost s = text::seq_of(sockets@);
        let mut i: usize = 0;
        while i < sockets.len()
            invariant
                i <= s.len() == sockets@.len(),
                s == text::seq_of(sockets@),
                g == self@,
                node@ == g.nodes[id],
                text::seq_of(errors@) == combine_errors(start, g, id, s, i as int),
            decreases s.len() - i,
        {
            let socket = &sockets[i];
            assert(s[i as int] == socket@);
            match &socket.combine {
                Some(c) => match (
                    node.generics.get(c.a.as_str()),
                    node.generics.get(c.b.as_str()),
                ) {
                    (Some(a), Some(b)) => {
                        if c.rule.apply(*a, *b).is_none() {
                            report(
                                errors,
                                GraphError::IncompatibleGenerics {
                                    node: id,
                                    socket: socket.name.as_str().to_owned(),
                                    rule: c.rule,
                                    a: (c.a.as_str().to_owned(), *a),
                                    b: (c.b.as_str().to_owned(), *b),
                                },
                            );
                        }
                    },
                    _ => {},
                },
                None => {},
            }
            i += 1;
        }
    }

    /// Report the problems with what the nodes pin and resolve.
    fn check_nodes(&self, registry: &NodeRegistry, errors: &mut Vec<GraphError>)
        ensures
            text::seq_of(final(errors)@) == all_node_errors(
                text::seq_of(old(errors)@),
                self@,
                registry@,
                self@.ids(),
                self@.ids().len() as int,
            ),
    {
        let ghost g = self@;
        let ghost start = text::seq_of(errors@);
        let ghost ids = g.ids();
        let n: usize = self.nodes.len();
        let mut i: usize = 0;
        while i < n
            invariant
                i <= n == ids.len(),
                g == self@,
                g.nodes == self.nodes@.nodes,
                ids == g.ids(),
                text::seq_of(errors@) == all_node_errors(start, g, registry@, ids, i as int),
            decreases n - i,
        {
            let id = self.nodes.key_at(i);
            let node = self.nodes.value_at(i);
            match self.definition(registry, id) {
                Ok(def) => {
                    self.check_params(id, node, def, errors);
                    let ghost pinned = text::seq_of(errors@);
                    let ghost params = def@.generics;
                    let mut k: usize = 0;
                    while k < def.generics.len()
                        invariant
                            k <= params.len() == def.generics@.len(),
                            params == text::seq_of(def.generics@),
                            g == self@,
                            node@ == g.nodes[id],
                            text::seq_of(errors@) == unresolved_errors(
                                pinned,
                                g,
                                id,
                                params,
                                k as int,
                            ),
                        decreases params.len() - k,
                    {
                        let name = def.generics[k].name.as_str();
                        assert(params[k as int] == def.generics@[k as int]@);
                        if !node.generics.contains_key(name) {
                            report(
                                errors,
                                GraphError::UnresolvedGeneric { node: id, param: name.to_owned() },
                            );
                        }
                        k += 1;
                    }
                    self.check_combined(id, node, &def.inputs, errors);
                    self.check_combined(id, node, &def.outputs, errors);
                },
                Err(_) => {
                    report(
                        errors,
                        GraphError::UnknownDefinition { node: id, def: node.def.clone() },
                    );
                },
            }
            i += 1;
        }
    }
}

// ---------------------------------------------------------------------------
// What the graph declares

/// The problem that a block's own name is.
pub open spec fn block_name_errors(errors: Seq<GraphErrorView>, block: UserBlockDeclView) -> Seq<
    GraphErrorView,
> {
    if wxsl::is_ident(text::trimmed(block.name)) {
        errors
    } else {
        errors.push(
            GraphErrorView::InvalidUserBlock {
                reason: quoted(
                    block.name,
                    "` is not a valid WXSL identifier for the block itself"@,
                ),
            },
        )
    }
}

/// The problems with a field of a block, behind others.
pub open spec fn field_errors(
    errors: Seq<GraphErrorView>,
    fields: Seq<UserFieldView>,
    i: int,
) -> Seq<GraphErrorView> {
    let name = text::trimmed(fields[i].name);
    if !wxsl::is_ident(name) {
        errors.push(
            GraphErrorView::InvalidUserBlock {
                reason: quoted(name, "` is not a valid WXSL field name"@),
            },
        )
    } else {
        let again = exists|j: int| 0 <= j < i && text::trimmed((#[trigger] fields[j]).name) == name;
        let one = if again {
            errors.push(
                GraphErrorView::InvalidUserBlock {
                    reason: quoted(name, "` is declared twice"@),
                },
            )
        } else {
            errors
        };
        if fields[i].ty.is_resource() {
            one.push(
                GraphErrorView::InvalidUserBlock {
                    reason: quoted(name, "` is "@) + fields[i].ty.wxsl_type()@
                        + ", and a uniform block holds values rather than resources"@,
                },
            )
        } else {
            one
        }
    }
}

/// The problems with the first `n` fields of a block, behind others.
pub open spec fn all_field_errors(
    errors: Seq<GraphErrorView>,
    fields: Seq<UserFieldView>,
    n: int,
) -> Seq<GraphErrorView>
    decreases n,
{
    if n <= 0 {
        errors
    } else {
        field_errors(all_field_errors(errors, fields, n - 1), fields, n - 1)
    }
}

/// The problems with the block that a graph asks the application for, behind
/// others.
pub open spec fn user_block_errors(errors: Seq<GraphErrorView>, g: GraphView) -> Seq<
    GraphErrorView,
> {
    match g.user_block {
        Some(block) => all_field_errors(
            block_name_errors(errors, block),
            block.fields,
            block.fields.len() as int,
        ),
        None => errors,
    }
}

/// An attribute that cannot be, for a reason.
pub open spec fn bad_attribute(reason: Seq<char>) -> GraphErrorView {
    GraphErrorView::InvalidAttribute { reason }
}

/// Whether every row of the instance buffer has a field of this name.
pub open spec fn is_base_field(name: Seq<char>) -> bool {
    abi::instance_base_fields()[0].name@ == name || abi::instance_base_fields()[1].name@ == name
}

/// The problem with the type of an attribute of its frequency, behind others.
pub open spec fn attribute_type_errors(
    errors: Seq<GraphErrorView>,
    name: Seq<char>,
    decl: AttributeDeclView,
) -> Seq<GraphErrorView> {
    match decl.frequency {
        AttributeFrequency::Vertex => match graph::vertex_attribute_problem(decl.ty) {
            Some(reason) => errors.push(bad_attribute(quoted(name, "`: "@) + reason)),
            None => errors,
        },
        AttributeFrequency::Instance => if decl.ty.is_resource() {
            errors.push(
                bad_attribute(
                    quoted(name, "` is "@) + decl.ty.wxsl_type()@
                        + ", and an instance row holds values rather than resources"@,
                ),
            )
        } else {
            errors
        },
        AttributeFrequency::Computed => if !abi::INTERPOLANT_TYPES@.contains(decl.ty) {
            errors.push(
                bad_attribute(
                    quoted(name, "` is "@) + decl.ty.wxsl_type()@
                        + ", and an interpolated value is a float or a float vector"@,
                ),
            )
        } else {
            errors
        },
    }
}

/// The problems with a declared attribute, behind others.
pub open spec fn attribute_errors(
    errors: Seq<GraphErrorView>,
    s: Seq<AttributeDeclView>,
    i: int,
) -> Seq<GraphErrorView> {
    let name = text::trimmed(s[i].name);
    if !wxsl::is_ident(name) {
        errors.push(bad_attribute(quoted(name, "` is not a valid WXSL attribute name"@)))
    } else {
        let again = exists|j: int| 0 <= j < i && text::trimmed((#[trigger] s[j]).name) == name;
        let twice = if again {
            errors.push(bad_attribute(quoted(name, "` is declared twice"@)))
        } else {
            errors
        };
        let reserved = match graph::reserved_problem(name) {
            Some(reason) => twice.push(bad_attribute(quoted(name, "` "@) + reason)),
            None => twice,
        };
        let base = if is_base_field(name) {
            reserved.push(
                bad_attribute(
                    quoted(
                        name,
                        "` is a field every instance row already has, and the transform lives there"@,
                    ),
                ),
            )
        } else {
            reserved
        };
        attribute_type_errors(base, name, s[i])
    }
}

/// The problems with the first `n` declared attributes, behind others.
pub open spec fn all_attribute_errors(
    errors: Seq<GraphErrorView>,
    s: Seq<AttributeDeclView>,
    n: int,
) -> Seq<GraphErrorView>
    decreases n,
{
    if n <= 0 {
        errors
    } else {
        attribute_errors(all_attribute_errors(errors, s, n - 1), s, n - 1)
    }
}

/// The problem of more per-vertex attributes than there is room for, behind
/// others.
pub open spec fn slot_errors(errors: Seq<GraphErrorView>, g: GraphView) -> Seq<GraphErrorView> {
    let count = graph::attributes_of(
        g.attributes,
        AttributeFrequency::Vertex,
        g.attributes.len() as int,
    ).len();
    if count > abi::MAX_VERTEX_ATTRIBUTES {
        errors.push(
            bad_attribute(
                text::decimal(count) + " per-vertex attributes declared, and the budget is "@ + text::decimal(
                    abi::MAX_VERTEX_ATTRIBUTES as nat,
                ) + " — each is a vertex buffer slot of its own"@,
            ),
        )
    } else {
        errors
    }
}

/// The problem of more values between the stages than there are locations,
/// behind others.
pub open spec fn location_errors(errors: Seq<GraphErrorView>, g: GraphView) -> Seq<
    GraphErrorView,
> {
    let geometry = interface::geometry_asked(g);
    let used = resources::varyings_spent(geometry);
    if used > abi::MAX_VARYING_LOCATIONS {
        errors.push(
            bad_attribute(
                text::decimal(used as nat) + " inter-stage locations used, and there are "@ + text::decimal(
                    abi::MAX_VARYING_LOCATIONS as nat,
                ) + ": "@ + text::decimal(abi::VERTEX_OUT_COUNT as nat) + " for the shading basis"@ + (
                if geometry.instance_index_location is Some {
                    " plus one for the instance index"@
                } else {
                    ""@
                }) + ", "@ + text::decimal(geometry.vertex.len())
                    + " declared per-vertex attribute(s) and "@ + text::decimal(geometry.computed.len())
                    + " computed interpolant(s)"@,
            ),
        )
    } else {
        errors
    }
}

/// The problems with what a graph asks of its geometry, behind others.
pub open spec fn geometry_errors(errors: Seq<GraphErrorView>, g: GraphView) -> Seq<
    GraphErrorView,
> {
    location_errors(
        slot_errors(
            all_attribute_errors(errors, g.attributes, g.attributes.len() as int),
            g,
        ),
        g,
    )
}

impl Graph {
    /// Report the problems with a field of a block.
    fn check_field(block: &UserBlockDecl, i: usize, errors: &mut Vec<GraphError>)
        requires
            i < block@.fields.len(),
        ensures
            text::seq_of(final(errors)@) == field_errors(text::seq_of(old(errors)@), block@.fields, i as int),
    {
        let ghost fields = block@.fields;
        assert(fields == text::seq_of(block.fields@));
        assert(fields[i as int] == block.fields@[i as int]@);
        let name = trim(block.fields[i].name.as_str());
        if WxslIdent::new(name).is_none() {
            report(
                errors,
                GraphError::InvalidUserBlock {
                    reason: quote(name, "` is not a valid WXSL field name"),
                },
            );
            return;
        }
        let mut again = false;
        let mut j: usize = 0;
        while j < i
            invariant
                j <= i < fields.len() == block.fields@.len(),
                fields == text::seq_of(block.fields@),
                again == exists|k: int|
                    0 <= k < j && text::trimmed((#[trigger] fields[k]).name) == name@,
            decreases i - j,
        {
            assert(fields[j as int] == block.fields@[j as int]@);
            if same_text(trim(block.fields[j].name.as_str()), name) {
                again = true;
            }
            j += 1;
        }
        if again {
            report(
                errors,
                GraphError::InvalidUserBlock { reason: quote(name, "` is declared twice") },
            );
        }
        let ty = block.fields[i].ty;
        if ty.is_resource() {
            report(
                errors,
                GraphError::InvalidUserBlock {
                    reason: quote_type(
                        name,
                        "` is ",
                        ty,
                        ", and a uniform block holds values rather than resources",
                    ),
                },
            );
        }
    }

    /// Report the problems with the block that the graph asks the application
    /// for.
    fn check_user_block(&self, errors: &mut Vec<GraphError>)
        ensures
            text::seq_of(final(errors)@) == user_block_errors(text::seq_of(old(errors)@), self@),
    {
        let block = match &self.user_block {
            Some(b) => b,
            None => {
                return;
            },
        };
        assert(self@.user_block == Some(block@));
        if WxslIdent::new(trim(block.name.as_str())).is_none() {
            report(
                errors,
                GraphError::InvalidUserBlock {
                    reason: quote(
                        block.name.as_str(),
                        "` is not a valid WXSL identifier for the block itself",
                    ),
                },
            );
        }
        let ghost start = text::seq_of(errors@);
        let ghost fields = block@.fields;
        let mut i: usize = 0;
        while i < block.fields.len()
            invariant
                i <= fields.len() == block.fields@.len(),
                fields == block@.fields,
                text::seq_of(errors@) == all_field_errors(start, fields, i as int),
            decreases fields.len() - i,
        {
            Self::check_field(block, i, errors);
            i += 1;
        }
    }

    /// Report the problem with the type of an attribute of its frequency.
    fn check_attribute_type(name: &str, decl: &AttributeDecl, errors: &mut Vec<GraphError>)
        ensures
            text::seq_of(final(errors)@) == attribute_type_errors(
                text::seq_of(old(errors)@),
                name@,
                decl@,
            ),
    {
        match decl.frequency {
            AttributeFrequency::Vertex => match vertex_attribute_reason(decl.ty) {
                Some(reason) => {
                    let mut out = quote(name, "`: ");
                    out.append(reason.as_str());
                    report(errors, GraphError::InvalidAttribute { reason: out });
                },
                None => {},
            },
            AttributeFrequency::Instance => {
                if decl.ty.is_resource() {
                    report(
                        errors,
                        GraphError::InvalidAttribute {
                            reason: quote_type(
                                name,
                                "` is ",
                                decl.ty,
                                ", and an instance row holds values rather than resources",
                            ),
                        },
                    );
                }
            },
            AttributeFrequency::Computed => {
                if !abi::is_interpolant_type(decl.ty) {
                    report(
                        errors,
                        GraphError::InvalidAttribute {
                            reason: quote_type(
                                name,
                                "` is ",
                                decl.ty,
                                ", and an interpolated value is a float or a float vector",
                            ),
                        },
                    );
                }
            },
        }
    }

    /// Report the problems with a declared attribute.
    fn check_attribute(&self, i: usize, errors: &mut Vec<GraphError>)
        requires
            i < self@.attributes.len(),
        ensures
            text::seq_of(final(errors)@) == attribute_errors(
                text::seq_of(old(errors)@),
                self@.attributes,
                i as int,
            ),
    {
        let ghost s = self@.attributes;
        assert(s == text::seq_of(self.attributes@));
        assert(s[i as int] == self.attributes@[i as int]@);
        let name = trim(self.attributes[i].name.as_str());
        if WxslIdent::new(name).is_none() {
            report(
                errors,
                GraphError::InvalidAttribute {
                    reason: quote(name, "` is not a valid WXSL attribute name"),
                },
            );
            return;
        }
        let mut again = false;
        let mut j: usize = 0;
        while j < i
            invariant
                j <= i < s.len() == self.attributes@.len(),
                s == text::seq_of(self.attributes@),
                again == exists|k: int| 0 <= k < j && text::trimmed((#[trigger] s[k]).name) == name@,
            decreases i - j,
        {
            assert(s[j as int] == self.attributes@[j as int]@);
            if same_text(trim(self.attributes[j].name.as_str()), name) {
                again = true;
            }
            j += 1;
        }
        if again {
            report(
                errors,
                GraphError::InvalidAttribute { reason: quote(name, "` is declared twice") },
            );
        }
        match reserved_reason(name) {
            Some(reason) => {
                let mut out = quote(name, "` ");
                out.append(reason.as_str());
                report(errors, GraphError::InvalidAttribute { reason: out });
            },
            None => {},
        }
        let base = abi::instance_base_fields();
        if same_text(base[0].name, name) || same_text(base[1].name, name) {
            report(
                errors,
                GraphError::InvalidAttribute {
                    reason: quote(
                        name,
                        "` is a field every instance row already has, and the transform lives there",
                    ),
                },
            );
        }
        Self::check_attribute_type(name, &self.attributes[i], errors);
    }

    /// Report the problems with what the graph asks of its geometry.
    fn check_attributes(&self, errors: &mut Vec<GraphError>)
        requires
            self@.geometry_fits(),
        ensures
            text::seq_of(final(errors)@) == geometry_errors(text::seq_of(old(errors)@), self@),
    {
        let ghost g = self@;
        let ghost start = text::seq_of(errors@);
        let mut i: usize = 0;
        while i < self.attributes.len()
            invariant
                i <= g.attributes.len() == self.attributes@.len(),
                g == self@,
                text::seq_of(errors@) == all_attribute_errors(start, g.attributes, i as int),
            decreases g.attributes.len() - i,
        {
            self.check_attribute(i, errors);
            i += 1;
        }
        let per_vertex = self.declared_attributes(AttributeFrequency::Vertex);
        let count: usize = per_vertex.len();
        assert(text::seq_of(per_vertex@).len() == count);
        if count > abi::MAX_VERTEX_ATTRIBUTES {
            let mut out = decimal_text(count as u64);
            out.append(" per-vertex attributes declared, and the budget is ");
            push_number(&mut out, abi::MAX_VERTEX_ATTRIBUTES as u64);
            out.append(" — each is a vertex buffer slot of its own");
            report(errors, GraphError::InvalidAttribute { reason: out });
        }
        let geometry = self.geometry();
        let used: usize = geometry.varyings_used();
        if used > abi::MAX_VARYING_LOCATIONS {
            let mut out = decimal_text(used as u64);
            out.append(" inter-stage locations used, and there are ");
            push_number(&mut out, abi::MAX_VARYING_LOCATIONS as u64);
            out.append(": ");
            push_number(&mut out, abi::VERTEX_OUT_COUNT as u64);
            out.append(" for the shading basis");
            if geometry.instance_index_location().is_some() {
                out.append(" plus one for the instance index");
            } else {
                out.append("");
            }
            out.append(", ");
            let vertex = geometry.vertex();
            let computed = geometry.computed();
            assert(text::seq_of(vertex@).len() == vertex@.len());
            assert(text::seq_of(computed@).len() == computed@.len());
            push_number(&mut out, vertex.len() as u64);
            out.append(" declared per-vertex attribute(s) and ");
            push_number(&mut out, computed.len() as u64);
            out.append(" computed interpolant(s)");
            report(errors, GraphError::InvalidAttribute { reason: out });
        }
    }
}

// ---------------------------------------------------------------------------
// The ends of the graph

/// The problem of several ends of one kind, behind others.
pub open spec fn several_errors(
    errors: Seq<GraphErrorView>,
    kind: Seq<char>,
    nodes: Seq<NodeId>,
) -> Seq<GraphErrorView> {
    if nodes.len() > 1 {
        errors.push(GraphErrorView::DuplicateOutput { kind, nodes })
    } else {
        errors
    }
}

/// The names of the declared attributes.
pub open spec fn attribute_names(g: GraphView) -> Seq<Seq<char>> {
    Seq::new(g.attributes.len(), |i: int| g.attributes[i].name)
}

/// The problem with what a node that writes an interpolant names, behind
/// others.
pub open spec fn writer_errors(
    errors: Seq<GraphErrorView>,
    g: GraphView,
    kinds: Kinds,
    id: NodeId,
) -> Seq<GraphErrorView> {
    match g.declared_name(kinds, id, SETTING_NAME@) {
        None => errors.push(
            bad_attribute(
                "the interpolant output on node "@ + text::decimal(id.0 as nat)
                    + " names no interpolant"@,
            ),
        ),
        Some(name) => match g.attribute(name) {
            Some(decl) => if decl.frequency == AttributeFrequency::Computed {
                errors
            } else {
                errors.push(
                    bad_attribute(
                        quoted(name, "` is declared as a "@) + decl.frequency.name()@
                            + " attribute, and the geometry supplies it — only a computed one is written by the graph"@,
                    ),
                )
            },
            None => errors.push(
                GraphErrorView::UnknownAttribute {
                    node: id,
                    attribute: name,
                    declared: attribute_names(g),
                },
            ),
        },
    }
}

/// The problems with what the first `n` of these nodes name, behind others.
pub open spec fn all_writer_errors(
    errors: Seq<GraphErrorView>,
    g: GraphView,
    kinds: Kinds,
    ids: Seq<NodeId>,
    n: int,
) -> Seq<GraphErrorView>
    decreases n,
{
    if n <= 0 {
        errors
    } else {
        writer_errors(all_writer_errors(errors, g, kinds, ids, n - 1), g, kinds, ids[n - 1])
    }
}

/// Which of the first `n` of these nodes write each name.
pub open spec fn writers_of(g: GraphView, kinds: Kinds, ids: Seq<NodeId>, n: int) -> Map<
    Seq<char>,
    Seq<NodeId>,
>
    decreases n,
{
    if n <= 0 {
        Map::empty()
    } else {
        let before = writers_of(g, kinds, ids, n - 1);
        match g.declared_name(kinds, ids[n - 1], SETTING_NAME@) {
            Some(name) => before.insert(
                name,
                if before.contains_key(name) {
                    before[name].push(ids[n - 1])
                } else {
                    seq![ids[n - 1]]
                },
            ),
            None => before,
        }
    }
}

/// The names among the first `n` that several nodes write, behind other
/// problems.
pub open spec fn rewritten_errors(
    errors: Seq<GraphErrorView>,
    writers: Map<Seq<char>, Seq<NodeId>>,
    names: Seq<Seq<char>>,
    n: int,
) -> Seq<GraphErrorView>
    decreases n,
{
    if n <= 0 {
        errors
    } else {
        several_errors(
            rewritten_errors(errors, writers, names, n - 1),
            abi::VARYING_OUTPUT_ID@ + " `"@ + names[n - 1] + "`"@,
            writers[names[n - 1]],
        )
    }
}

/// The declared interpolants among the first `n` that nothing writes, behind
/// other problems.
pub open spec fn unwritten_errors(
    errors: Seq<GraphErrorView>,
    writers: Map<Seq<char>, Seq<NodeId>>,
    s: Seq<AttributeDeclView>,
    n: int,
) -> Seq<GraphErrorView>
    decreases n,
{
    if n <= 0 {
        errors
    } else {
        let before = unwritten_errors(errors, writers, s, n - 1);
        let name = text::trimmed(s[n - 1].name);
        if s[n - 1].frequency == AttributeFrequency::Computed && !writers.contains_key(name) {
            before.push(
                bad_attribute(
                    quoted(
                        name,
                        "` is a computed interpolant and nothing writes it; add an `"@,
                    ) + abi::VARYING_OUTPUT_ID@ + "` node or drop the declaration"@,
                ),
            )
        } else {
            before
        }
    }
}

/// The problems with the interpolants that the graph writes, behind others:
/// every declared one is written once, and every writer names one.
pub open spec fn varying_errors(errors: Seq<GraphErrorView>, g: GraphView, kinds: Kinds) -> Seq<
    GraphErrorView,
> {
    let ids = outputs::terminals(g, kinds, Terminal::Varying);
    let n = ids.len() as int;
    let writers = writers_of(g, kinds, ids, n);
    let names = textmap::in_order(writers.dom());
    unwritten_errors(
        rewritten_errors(
            all_writer_errors(errors, g, kinds, ids, n),
            writers,
            names,
            names.len() as int,
        ),
        writers,
        g.attributes,
        g.attributes.len() as int,
    )
}

/// What placing the nodes finds wrong. There is nothing to place before the
/// graph has one surface and an order.
pub open spec fn plan_errors(g: GraphView, kinds: Kinds) -> Seq<GraphErrorView> {
    match outputs::outputs_of(g, kinds) {
        Some(o) => if topology::topological(g, None) is Ok {
            match stages::plan_of(g, kinds, o) {
                Err(found) => found,
                Ok(_) => Seq::empty(),
            }
        } else {
            Seq::empty()
        },
        None => Seq::empty(),
    }
}

/// Whether one of the problems is with the stage of a node that runs for an
/// end.
pub open spec fn tells_of_stage(found: Seq<GraphErrorView>, id: NodeId, end: NodeId) -> bool {
    exists|i: int|
        0 <= i < found.len() && (#[trigger] found[i]) is WrongStage && found[i]->WrongStage_node
            == id && found[i]->WrongStage_output == end
}

/// The nodes among the first `n` that the vertex stage would have to run for
/// an end of it and cannot, behind other problems. Those that `told` speaks of
/// for that end are passed over.
pub open spec fn misread_errors(
    errors: Seq<GraphErrorView>,
    g: GraphView,
    kinds: Kinds,
    told: Seq<GraphErrorView>,
    root: NodeId,
    ids: Seq<NodeId>,
    n: int,
) -> Seq<GraphErrorView>
    decreases n,
{
    if n <= 0 {
        errors
    } else {
        let before = misread_errors(errors, g, kinds, told, root, ids, n - 1);
        let id = ids[n - 1];
        if !stages::runs_per_vertex(g, kinds, id) && !tells_of_stage(told, id, root) {
            before.push(
                stages::stage_error(g, id, Some(root), stages::vertex_reason(g, kinds, id)),
            )
        } else {
            before
        }
    }
}

/// The nodes behind the first `n` ends of the vertex stage that it cannot run,
/// behind other problems.
pub open spec fn all_misreads(
    errors: Seq<GraphErrorView>,
    g: GraphView,
    kinds: Kinds,
    told: Seq<GraphErrorView>,
    roots: Seq<NodeId>,
    n: int,
) -> Seq<GraphErrorView>
    decreases n,
{
    if n <= 0 {
        errors
    } else {
        let ids = idmap::in_order(
            traversal::dependencies(g.edges, Set::empty(), roots[n - 1]),
        );
        misread_errors(
            all_misreads(errors, g, kinds, told, roots, n - 1),
            g,
            kinds,
            told,
            roots[n - 1],
            ids,
            ids.len() as int,
        )
    }
}

/// The problems with the stages that the nodes run in, behind others: what
/// placing them finds, and then, whatever surfaces the graph has and for each
/// end of the vertex stage, every computed interpolant that something behind it
/// reads, but for what placing said of that end.
pub open spec fn placement_errors(errors: Seq<GraphErrorView>, g: GraphView, kinds: Kinds) -> Seq<
    GraphErrorView,
> {
    let told = plan_errors(g, kinds);
    let vertices = outputs::terminals(g, kinds, Terminal::Vertex);
    let varyings = outputs::terminals(g, kinds, Terminal::Varying);
    all_misreads(
        all_misreads(errors + told, g, kinds, told, vertices, vertices.len() as int),
        g,
        kinds,
        told,
        varyings,
        varyings.len() as int,
    )
}

/// The problems with the ends of a graph and with what runs where, behind
/// others.
pub open spec fn output_errors(errors: Seq<GraphErrorView>, g: GraphView, kinds: Kinds) -> Seq<
    GraphErrorView,
> {
    let surfaces = several_errors(
        errors,
        abi::SURFACE_OUTPUT_ID@,
        outputs::terminals(g, kinds, Terminal::Surface),
    );
    let vertices = several_errors(
        surfaces,
        abi::VERTEX_OUTPUT_ID@,
        outputs::terminals(g, kinds, Terminal::Vertex),
    );
    let discards = several_errors(
        vertices,
        abi::DISCARD_OUTPUT_ID@,
        outputs::terminals(g, kinds, Terminal::Discard),
    );
    placement_errors(varying_errors(discards, g, kinds), g, kinds)
}

/// Add problems to those found.
fn report_all(errors: &mut Vec<GraphError>, more: &Vec<GraphError>)
    ensures
        text::seq_of(final(errors)@) == text::seq_of(old(errors)@) + text::seq_of(more@),
{
    let ghost before = text::seq_of(errors@);
    let ghost rest = text::seq_of(more@);
    let mut i: usize = 0;
    assert(before =~= before + rest.take(0));
    while i < more.len()
        invariant
            i <= rest.len() == more@.len(),
            rest == text::seq_of(more@),
            text::seq_of(errors@) == before + rest.take(i as int),
        decreases rest.len() - i,
    {
        assert(rest[i as int] == more@[i as int]@);
        report(errors, more[i].clone());
        assert(rest.take(i + 1) =~= rest.take(i as int).push(rest[i as int]));
        assert(before + rest.take(i + 1) =~= (before + rest.take(i as int)).push(rest[i as int]));
        i += 1;
    }
    assert(rest.take(i as int) =~= rest);
}

/// Whether one of the problems is with the stage of a node that runs for an
/// end.
fn is_told_of(told: &Vec<GraphError>, id: NodeId, end: NodeId) -> (r: bool)
    ensures
        r == tells_of_stage(text::seq_of(told@), id, end),
{
    let ghost t = text::seq_of(told@);
    let mut i: usize = 0;
    while i < told.len()
        invariant
            i <= t.len() == told@.len(),
            t == text::seq_of(told@),
            forall|j: int|
                0 <= j < i && (#[trigger] t[j]) is WrongStage ==> t[j]->WrongStage_node != id
                    || t[j]->WrongStage_output != end,
        decreases t.len() - i,
    {
        assert(t[i as int] == told@[i as int]@);
        match &told[i] {
            GraphError::WrongStage { node, output, .. } => {
                if node.0 == id.0 && output.0 == end.0 {
                    return true;
                }
            },
            _ => {},
        }
        i += 1;
    }
    false
}

/// Report several ends of one kind.
fn check_several(kind: &str, nodes: Vec<NodeId>, errors: &mut Vec<GraphError>)
    ensures
        text::seq_of(final(errors)@) == several_errors(text::seq_of(old(errors)@), kind@, nodes@),
{
    if nodes.len() > 1 {
        report(errors, GraphError::DuplicateOutput { kind: kind.to_owned(), nodes });
    }
}

impl Graph {
    /// The names of the declared attributes.
    fn attribute_names(&self) -> (r: Vec<String>)
        ensures
            text::seq_of(r@) == attribute_names(self@),
    {
        let ghost s = self@.attributes;
        let mut names: Vec<String> = Vec::new();
        let mut i: usize = 0;
        while i < self.attributes.len()
            invariant
                i <= s.len() == self.attributes@.len(),
                s == text::seq_of(self.attributes@),
                names@.len() == i,
                forall|j: int| 0 <= j < i ==> (#[trigger] names@[j])@ == s[j].name,
            decreases s.len() - i,
        {
            assert(s[i as int] == self.attributes@[i as int]@);
            names.push(self.attributes[i].name.clone());
            i += 1;
        }
        assert(text::seq_of(names@) =~= attribute_names(self@));
        names
    }

    /// Report the problem with what a node that writes an interpolant names.
    fn check_writer(&self, registry: &NodeRegistry, id: NodeId, errors: &mut Vec<GraphError>)
        ensures
            text::seq_of(final(errors)@) == writer_errors(text::seq_of(old(errors)@), self@, registry@, id),
    {
        match self.declared_name(registry, id, SETTING_NAME) {
            None => {
                let mut out = "the interpolant output on node ".to_owned();
                push_number(&mut out, id.0 as u64);
                out.append(" names no interpolant");
                report(errors, GraphError::InvalidAttribute { reason: out });
            },
            Some(name) => match self.attribute(name.as_str()) {
                Some(decl) => {
                    if decl.frequency != AttributeFrequency::Computed {
                        let mut out = quote(name.as_str(), "` is declared as a ");
                        out.append(decl.frequency.name());
                        out.append(
                            " attribute, and the geometry supplies it — only a computed one is written by the graph",
                        );
                        report(errors, GraphError::InvalidAttribute { reason: out });
                    }
                },
                None => {
                    let declared = self.attribute_names();
                    report(
                        errors,
                        GraphError::UnknownAttribute {
                            node: id,
                            attribute: name.as_str().to_owned(),
                            declared,
                        },
                    );
                },
            },
        }
    }

    /// Report the problems with the interpolants that the graph writes.
    fn check_varying_outputs(&self, registry: &NodeRegistry, errors: &mut Vec<GraphError>)
        ensures
            text::seq_of(final(errors)@) == varying_errors(text::seq_of(old(errors)@), self@, registry@),
    {
        let ghost g = self@;
        let ghost kinds = registry@;
        let ghost start = text::seq_of(errors@);
        let ids = self.varying_outputs(registry);
        let mut written: TextMap<Vec<NodeId>> = TextMap::new();
        let mut i: usize = 0;
        assert(written@ =~= writers_of(g, kinds, ids@, 0));
        while i < ids.len()
            invariant
                i <= ids@.len(),
                g == self@,
                kinds == registry@,
                text::seq_of(errors@) == all_writer_errors(start, g, kinds, ids@, i as int),
                written@ == writers_of(g, kinds, ids@, i as int),
            decreases ids@.len() - i,
        {
            let id = ids[i];
            self.check_writer(registry, id, errors);
            match self.declared_name(registry, id, SETTING_NAME) {
                Some(name) => {
                    let mut nodes: Vec<NodeId> = match written.get(name.as_str()) {
                        Some(held) => copy_vec(held),
                        None => Vec::new(),
                    };
                    nodes.push(id);
                    assert(nodes@ =~= if written@.contains_key(name@) {
                        written@[name@].push(id)
                    } else {
                        seq![id]
                    });
                    written.insert(name.as_str().to_owned(), nodes);
                },
                None => {},
            }
            i += 1;
        }
        let ghost named = text::seq_of(errors@);
        let ghost writers = written@;
        let ghost names = textmap::in_order(writers.dom());
        let n: usize = written.len();
        let mut i: usize = 0;
        while i < n
            invariant
                i <= n == names.len(),
                writers == written@,
                names == textmap::in_order(writers.dom()),
                text::seq_of(errors@) == rewritten_errors(named, writers, names, i as int),
            decreases n - i,
        {
            let mut kind = abi::VARYING_OUTPUT_ID.to_owned();
            kind.append(" `");
            kind.append(written.key_at(i));
            kind.append("`");
            let nodes = copy_vec(written.value_at(i));
            check_several(kind.as_str(), nodes, errors);
            i += 1;
        }
        let ghost once = text::seq_of(errors@);
        let ghost s = g.attributes;
        let mut i: usize = 0;
        while i < self.attributes.len()
            invariant
                i <= s.len() == self.attributes@.len(),
                s == text::seq_of(self.attributes@),
                writers == written@,
                text::seq_of(errors@) == unwritten_errors(once, writers, s, i as int),
            decreases s.len() - i,
        {
            let decl = &self.attributes[i];
            assert(s[i as int] == decl@);
            let name = trim(decl.name.as_str());
            if decl.frequency == AttributeFrequency::Computed && !written.contains_key(name) {
                let mut out = quote(
                    name,
                    "` is a computed interpolant and nothing writes it; add an `",
                );
                out.append(abi::VARYING_OUTPUT_ID);
                out.append("` node or drop the declaration");
                report(errors, GraphError::InvalidAttribute { reason: out });
            }
            i += 1;
        }
    }

    /// What placing the nodes finds wrong.
    fn plan_problems(&self, registry: &NodeRegistry) -> (r: Vec<GraphError>)
        requires
            self@.geometry_fits(),
        ensures
            text::seq_of(r@) == plan_errors(self@, registry@),
    {
        match self.outputs(registry) {
            Some(outputs) => {
                if self.topological_order(None).is_ok() {
                    match analyze(self, registry, &outputs) {
                        Ok(_) => {},
                        Err(found) => {
                            return found.0;
                        },
                    }
                }
            },
            None => {},
        }
        let none: Vec<GraphError> = Vec::new();
        assert(text::seq_of(none@) =~= Seq::<GraphErrorView>::empty());
        none
    }

    /// Report the nodes behind ends of the vertex stage that it cannot run,
    /// but for those that are told of for that end.
    fn check_vertex_reads(
        &self,
        registry: &NodeRegistry,
        told: &Vec<GraphError>,
        roots: &Vec<NodeId>,
        errors: &mut Vec<GraphError>,
    )
        ensures
            text::seq_of(final(errors)@) == all_misreads(
                text::seq_of(old(errors)@),
                self@,
                registry@,
                text::seq_of(told@),
                roots@,
                roots@.len() as int,
            ),
    {
        let ghost start = text::seq_of(errors@);
        let ghost t = text::seq_of(told@);
        let mut i: usize = 0;
        while i < roots.len()
            invariant
                i <= roots@.len(),
                t == text::seq_of(told@),
                text::seq_of(errors@) == all_misreads(
                    start,
                    self@,
                    registry@,
                    t,
                    roots@,
                    i as int,
                ),
            decreases roots@.len() - i,
        {
            let root = roots[i];
            let behind = self.dependencies_of(root);
            let ghost ids = idmap::in_order(behind@);
            let ghost before = text::seq_of(errors@);
            let n: usize = behind.len();
            let mut j: usize = 0;
            while j < n
                invariant
                    j <= n == ids.len(),
                    ids == idmap::in_order(behind@),
                    t == text::seq_of(told@),
                    text::seq_of(errors@) == misread_errors(
                        before,
                        self@,
                        registry@,
                        t,
                        root,
                        ids,
                        j as int,
                    ),
                decreases n - j,
            {
                let id = behind.at(j);
                if !self.can_run_per_vertex(registry, id) && !is_told_of(told, id, root) {
                    let reason = self.why_not_per_vertex(registry, id);
                    report(errors, self.wrong_stage(id, Some(root), reason));
                }
                j += 1;
            }
            i += 1;
        }
    }

    /// Report the problems with the ends of the graph and with what runs
    /// where.
    fn check_outputs(&self, registry: &NodeRegistry, errors: &mut Vec<GraphError>)
        requires
            self@.geometry_fits(),
        ensures
            text::seq_of(final(errors)@) == output_errors(text::seq_of(old(errors)@), self@, registry@),
    {
        check_several(abi::SURFACE_OUTPUT_ID, self.surface_outputs(registry), errors);
        check_several(abi::VERTEX_OUTPUT_ID, self.vertex_outputs(registry), errors);
        check_several(abi::DISCARD_OUTPUT_ID, self.discard_outputs(registry), errors);
        self.check_varying_outputs(registry, errors);
        let told = self.plan_problems(registry);
        report_all(errors, &told);
        let vertices = self.vertex_outputs(registry);
        self.check_vertex_reads(registry, &told, &vertices, errors);
        let varyings = self.varying_outputs(registry);
        self.check_vertex_reads(registry, &told, &varyings, errors);
    }
}

// ---------------------------------------------------------------------------
// What nodes declare

/// The settings among the first `n` that a kind of node does not have, behind
/// other problems.
pub open spec fn setting_errors(
    errors: Seq<GraphErrorView>,
    d: NodeDefinitionView,
    id: NodeId,
    names: Seq<Seq<char>>,
    n: int,
) -> Seq<GraphErrorView>
    decreases n,
{
    if n <= 0 {
        errors
    } else {
        let before = setting_errors(errors, d, id, names, n - 1);
        if d.setting(names[n - 1]) is None {
            before.push(GraphErrorView::UnknownSetting { node: id, setting: names[n - 1] })
        } else {
            before
        }
    }
}

/// The setting that names what a node declares or reads.
pub open spec fn naming_setting(body: NodeBodyView) -> Option<Seq<char>> {
    match body {
        NodeBodyView::Param | NodeBodyView::Resource | NodeBodyView::AttributeRead => Some(
            SETTING_NAME@,
        ),
        NodeBodyView::UserRead => Some(SETTING_FIELD@),
        _ => None,
    }
}

/// The name that a setting of a node holds, usable or not.
pub open spec fn raw_name(g: GraphView, kinds: Kinds, id: NodeId, setting: Seq<char>) -> Seq<char> {
    match g.setting(kinds, id, setting) {
        Some(text) => text::trimmed(text),
        None => Seq::empty(),
    }
}

/// Why a name cannot be used.
pub open spec fn name_problem(name: Seq<char>) -> Option<Seq<char>> {
    if name.len() == 0 {
        Some("is empty; a declaration has to be called something"@)
    } else if !wxsl::is_ident(name) {
        Some("is not a valid WXSL identifier"@)
    } else {
        graph::reserved_problem(name)
    }
}

/// Being the field of this name, but for white space around it.
pub open spec fn field_called(name: Seq<char>) -> spec_fn(UserFieldView) -> bool {
    |f: UserFieldView| text::trimmed(f.name) == name
}

/// The names of the fields of a block.
pub open spec fn field_names(fields: Seq<UserFieldView>) -> Seq<Seq<char>> {
    Seq::new(fields.len(), |i: int| fields[i].name)
}

/// What was found out about declarations: the problems, and the type of each
/// name so far.
pub type Found = (Seq<GraphErrorView>, Map<Seq<char>, ValueType>);

/// What is found with one more use of a name that a node gives a type.
pub open spec fn with_named(
    found: Found,
    g: GraphView,
    body: NodeBodyView,
    id: NodeId,
    name: Seq<char>,
    ty: Option<ValueType>,
) -> Found {
    let (errors, types) = found;
    match body {
        NodeBodyView::Param | NodeBodyView::Resource => match ty {
            Some(ty) => if types.contains_key(name) && types[name] != ty {
                (
                    errors.push(
                        GraphErrorView::ConflictingDeclaration {
                            name,
                            first: types[name],
                            second: ty,
                        },
                    ),
                    types,
                )
            } else {
                (errors, types.insert(name, ty))
            },
            None => found,
        },
        NodeBodyView::UserRead => match g.user_block {
            None => (errors.push(GraphErrorView::NoUserBlock { node: id }), types),
            Some(block) => match lists::first_where(block.fields, field_called(name)) {
                None => (
                    errors.push(
                        GraphErrorView::UnknownUserField {
                            node: id,
                            field: name,
                            declared: field_names(block.fields),
                        },
                    ),
                    types,
                ),
                Some(field) => if ty is Some && ty->0 != field.ty {
                    (
                        errors.push(
                            GraphErrorView::UserFieldTypeMismatch {
                                node: id,
                                field: name,
                                resolved: ty->0,
                                declared: field.ty,
                            },
                        ),
                        types,
                    )
                } else {
                    found
                },
            },
        },
        NodeBodyView::AttributeRead => match g.attribute(name) {
            None => (
                errors.push(
                    GraphErrorView::UnknownAttribute {
                        node: id,
                        attribute: name,
                        declared: attribute_names(g),
                    },
                ),
                types,
            ),
            Some(decl) => if ty is Some && ty->0 != decl.ty {
                (
                    errors.push(
                        GraphErrorView::AttributeTypeMismatch {
                            node: id,
                            attribute: name,
                            resolved: ty->0,
                            declared: decl.ty,
                        },
                    ),
                    types,
                )
            } else {
                found
            },
        },
        _ => found,
    }
}

/// What is found with one node more.
pub open spec fn with_declaring(found: Found, g: GraphView, kinds: Kinds, id: NodeId) -> Found {
    let d = g.kind(kinds, id);
    let (errors, types) = found;
    let names = textmap::in_order(g.nodes[id].settings.dom());
    let set = setting_errors(errors, d, id, names, names.len() as int);
    match naming_setting(d.body) {
        None => (set, types),
        Some(setting) => {
            let name = raw_name(g, kinds, id, setting);
            match name_problem(name) {
                Some(reason) => (
                    set.push(
                        GraphErrorView::InvalidSetting { node: id, setting, value: name, reason },
                    ),
                    types,
                ),
                None => if d.outputs.len() > 0 {
                    with_named(
                        (set, types),
                        g,
                        d.body,
                        id,
                        name,
                        g.effective_type(id, d.outputs[0]),
                    )
                } else {
                    (set, types)
                },
            }
        },
    }
}

/// What is found with the first `n` of these nodes more.
pub open spec fn all_declaring(
    found: Found,
    g: GraphView,
    kinds: Kinds,
    ids: Seq<NodeId>,
    n: int,
) -> Found
    decreases n,
{
    if n <= 0 {
        found
    } else {
        let before = all_declaring(found, g, kinds, ids, n - 1);
        if g.known(kinds, ids[n - 1]) {
            with_declaring(before, g, kinds, ids[n - 1])
        } else {
            before
        }
    }
}

/// The problems with everything that a graph declares, behind others.
pub open spec fn declaration_errors(
    errors: Seq<GraphErrorView>,
    g: GraphView,
    kinds: Kinds,
) -> Seq<GraphErrorView> {
    let own = output_errors(
        geometry_errors(user_block_errors(errors, g), g),
        g,
        kinds,
    );
    all_declaring((own, Map::empty()), g, kinds, g.ids(), g.ids().len() as int).0
}

/// The names of the fields of a block.
fn names_of_fields(fields: &Vec<UserField>) -> (r: Vec<String>)
    ensures
        text::seq_of(r@) == field_names(text::seq_of(fields@)),
{
    let ghost s = text::seq_of(fields@);
    let mut names: Vec<String> = Vec::new();
    let mut i: usize = 0;
    while i < fields.len()
        invariant
            i <= s.len() == fields@.len(),
            s == text::seq_of(fields@),
            names@.len() == i,
            forall|j: int| 0 <= j < i ==> (#[trigger] names@[j])@ == s[j].name,
        decreases s.len() - i,
    {
        assert(s[i as int] == fields@[i as int]@);
        names.push(fields[i].name.clone());
        i += 1;
    }
    assert(text::seq_of(names@) =~= field_names(s));
    names
}

/// The field of a name, but for white space around it.
fn find_field<'a>(fields: &'a Vec<UserField>, name: &str) -> (r: Option<&'a UserField>)
    ensures
        text::opt_of(r) == lists::first_where(text::seq_of(fields@), field_called(name@)),
{
    let ghost s = text::seq_of(fields@);
    let ghost p = field_called(name@);
    let mut i: usize = 0;
    assert(s.skip(0) =~= s);
    while i < fields.len()
        invariant
            i <= s.len() == fields@.len(),
            s == text::seq_of(fields@),
            p == field_called(name@),
            lists::first_where(s, p) == lists::first_where(s.skip(i as int), p),
        decreases s.len() - i,
    {
        proof {
            lists::lemma_first_where_skip(s, p, i as int);
            assert(s[i as int] == fields@[i as int]@);
        }
        if same_text(trim(fields[i].name.as_str()), name) {
            return Some(&fields[i]);
        }
        i += 1;
    }
    None
}

impl Graph {
    /// Report one more use of a name that a node gives a type.
    fn check_named(
        &self,
        def: &NodeDefinition,
        id: NodeId,
        name: &str,
        ty: Option<ValueType>,
        types: &mut TextMap<ValueType>,
        errors: &mut Vec<GraphError>,
    )
        ensures
            (text::seq_of(final(errors)@), final(types)@) == with_named(
                (text::seq_of(old(errors)@), old(types)@),
                self@,
                def@.body,
                id,
                name@,
                ty,
            ),
    {
        match &def.body {
            NodeBody::Param | NodeBody::Resource => match ty {
                Some(ty) => {
                    let clash = match types.get(name) {
                        Some(first) => if *first != ty {
                            Some(*first)
                        } else {
                            None
                        },
                        None => None,
                    };
                    match clash {
                        Some(first) => {
                            report(
                                errors,
                                GraphError::ConflictingDeclaration {
                                    name: name.to_owned(),
                                    first,
                                    second: ty,
                                },
                            );
                        },
                        None => {
                            types.insert(name.to_owned(), ty);
                        },
                    }
                },
                None => {},
            },
            NodeBody::UserRead => match &self.user_block {
                None => {
                    report(errors, GraphError::NoUserBlock { node: id });
                },
                Some(block) => match find_field(&block.fields, name) {
                    None => {
                        let declared = names_of_fields(&block.fields);
                        report(
                            errors,
                            GraphError::UnknownUserField {
                                node: id,
                                field: name.to_owned(),
                                declared,
                            },
                        );
                    },
                    Some(field) => match ty {
                        Some(resolved) => {
                            if resolved != field.ty {
                                report(
                                    errors,
                                    GraphError::UserFieldTypeMismatch {
                                        node: id,
                                        field: name.to_owned(),
                                        resolved,
                                        declared: field.ty,
                                    },
                                );
                            }
                        },
                        None => {},
                    },
                },
            },
            NodeBody::AttributeRead => match self.attribute(name) {
                None => {
                    let declared = self.attribute_names();
                    report(
                        errors,
                        GraphError::UnknownAttribute {
                            node: id,
                            attribute: name.to_owned(),
                            declared,
                        },
                    );
                },
                Some(decl) => match ty {
                    Some(resolved) => {
                        if resolved != decl.ty {
                            report(
                                errors,
                                GraphError::AttributeTypeMismatch {
                                    node: id,
                                    attribute: name.to_owned(),
                                    resolved,
                                    declared: decl.ty,
                                },
                            );
                        }
                    },
                    None => {},
                },
            },
            _ => {},
        }
    }

    /// Report the problems with what one node declares.
    fn check_declaring(
        &self,
        registry: &NodeRegistry,
        id: NodeId,
        node: &Node,
        def: &NodeDefinition,
        types: &mut TextMap<ValueType>,
        errors: &mut Vec<GraphError>,
    )
        requires
            self@.known(registry@, id),
            node@ == self@.nodes[id],
            def@ == self@.kind(registry@, id),
        ensures
            (text::seq_of(final(errors)@), final(types)@) == with_declaring(
                (text::seq_of(old(errors)@), old(types)@),
                self@,
                registry@,
                id,
            ),
    {
        let ghost g = self@;
        let ghost d = def@;
        let ghost start = text::seq_of(errors@);
        let ghost names = textmap::in_order(node@.settings.dom());
        let n: usize = node.settings.len();
        let mut i: usize = 0;
        while i < n
            invariant
                i <= n == names.len(),
                d == def@,
                names == textmap::in_order(node@.settings.dom()),
                text::seq_of(errors@) == setting_errors(start, d, id, names, i as int),
            decreases n - i,
        {
            let name = node.settings.key_at(i);
            if def.setting(name).is_none() {
                report(
                    errors,
                    GraphError::UnknownSetting { node: id, setting: name.to_owned() },
                );
            }
            i += 1;
        }
        let setting = match &def.body {
            NodeBody::Param | NodeBody::Resource | NodeBody::AttributeRead => SETTING_NAME,
            NodeBody::UserRead => SETTING_FIELD,
            _ => {
                return;
            },
        };
        proof {
            reveal_strlit("");
        }
        let name = match self.setting(registry, id, setting) {
            Some(text) => trim(text),
            None => "",
        };
        assert(name@ =~= raw_name(g, registry@, id, setting@));
        let reason = if name.is_empty() {
            Some("is empty; a declaration has to be called something".to_owned())
        } else if WxslIdent::new(name).is_none() {
            Some("is not a valid WXSL identifier".to_owned())
        } else {
            reserved_reason(name)
        };
        match reason {
            Some(reason) => {
                report(
                    errors,
                    GraphError::InvalidSetting {
                        node: id,
                        setting: setting.to_owned(),
                        value: name.to_owned(),
                        reason,
                    },
                );
            },
            None => {
                if def.outputs.len() > 0 {
                    assert(d.outputs[0] == def.outputs@[0]@);
                    let ty = self.effective_type(id, &def.outputs[0]);
                    self.check_named(def, id, name, ty, types, errors);
                }
            },
        }
    }

    /// Report the problems with everything that the graph declares.
    fn check_declarations(&self, registry: &NodeRegistry, errors: &mut Vec<GraphError>)
        requires
            self@.geometry_fits(),
        ensures
            text::seq_of(final(errors)@) == declaration_errors(
                text::seq_of(old(errors)@),
                self@,
                registry@,
            ),
    {
        let ghost g = self@;
        let ghost kinds = registry@;
        self.check_user_block(errors);
        self.check_attributes(errors);
        self.check_outputs(registry, errors);
        let ghost start = (text::seq_of(errors@), Map::<Seq<char>, ValueType>::empty());
        let ghost ids = g.ids();
        let mut types: TextMap<ValueType> = TextMap::new();
        let n: usize = self.nodes.len();
        let mut i: usize = 0;
        while i < n
            invariant
                i <= n == ids.len(),
                g == self@,
                g.nodes == self.nodes@.nodes,
                kinds == registry@,
                ids == g.ids(),
                (text::seq_of(errors@), types@) == all_declaring(start, g, kinds, ids, i as int),
            decreases n - i,
        {
            let id = self.nodes.key_at(i);
            let node = self.nodes.value_at(i);
            match self.definition(registry, id) {
                Ok(def) => {
                    self.check_declaring(registry, id, node, def, &mut types, errors);
                },
                Err(_) => {},
            }
            i += 1;
        }
    }
}

// ---------------------------------------------------------------------------
// Edges, and the whole

/// The problem with one end of an edge, behind others.
pub open spec fn end_errors(
    errors: Seq<GraphErrorView>,
    g: GraphView,
    kinds: Kinds,
    place: SocketRefView,
    direction: Direction,
) -> Seq<GraphErrorView> {
    match typing::type_at(g, kinds, place, direction) {
        Ok(_) => errors,
        Err(e) => errors.push(e),
    }
}

/// Whether an edge leads into an input that only a constant can feed.
pub open spec fn feeds_constant(g: GraphView, kinds: Kinds, to: SocketRefView) -> bool {
    g.known(kinds, to.node) && match g.kind(kinds, to.node).input(to.socket) {
        Some(s) => s.constant,
        None => false,
    }
}

/// The problems with an edge, behind others.
pub open spec fn edge_errors(
    errors: Seq<GraphErrorView>,
    g: GraphView,
    kinds: Kinds,
    i: int,
) -> Seq<GraphErrorView> {
    let e = g.edges[i];
    let ends = end_errors(
        end_errors(errors, g, kinds, e.from, Direction::Output),
        g,
        kinds,
        e.to,
        Direction::Input,
    );
    let typed = match (
        wiring::settled_at(g, kinds, e.from, Direction::Output),
        wiring::settled_at(g, kinds, e.to, Direction::Input),
    ) {
        (Some(produced), Some(expected)) => if produced != expected {
            ends.push(
                GraphErrorView::TypeMismatch { from: e.from, to: e.to, produced, expected },
            )
        } else {
            ends
        },
        _ => ends,
    };
    let again = exists|j: int| 0 <= j < i && (#[trigger] g.edges[j]).to == e.to;
    let once = if again {
        typed.push(GraphErrorView::InputAlreadyConnected { socket: e.to })
    } else {
        typed
    };
    if feeds_constant(g, kinds, e.to) {
        once.push(GraphErrorView::ConstantInput { socket: e.to })
    } else {
        once
    }
}

/// The problems with the first `n` edges, behind others.
pub open spec fn all_edge_errors(
    errors: Seq<GraphErrorView>,
    g: GraphView,
    kinds: Kinds,
    n: int,
) -> Seq<GraphErrorView>
    decreases n,
{
    if n <= 0 {
        errors
    } else {
        edge_errors(all_edge_errors(errors, g, kinds, n - 1), g, kinds, n - 1)
    }
}

/// Whether something feeds an input: an edge, a pinned value, the value it
/// starts with; or it need not be fed.
pub open spec fn is_fed(g: GraphView, id: NodeId, s: SocketView) -> bool {
    ||| exists|i: int| 0 <= i < g.edges.len() && (#[trigger] g.edges[i]).to == typing::at(id, s)
    ||| g.nodes[id].params.contains_key(s.name)
    ||| match g.effective_type(id, s) {
        Some(ty) => node::default_of(s, ty) is Some,
        None => false,
    }
    ||| s.optional
}

/// The inputs among the first `n` that nothing feeds, behind other problems.
/// One whose own type parameter is open is reported for that.
pub open spec fn missing_errors(
    errors: Seq<GraphErrorView>,
    g: GraphView,
    id: NodeId,
    inputs: Seq<SocketView>,
    n: int,
) -> Seq<GraphErrorView>
    decreases n,
{
    if n <= 0 {
        errors
    } else {
        let before = missing_errors(errors, g, id, inputs, n - 1);
        let s = inputs[n - 1];
        if is_fed(g, id, s) || (s.generic is Some && !g.nodes[id].generics.contains_key(
            s.generic->0,
        )) {
            before
        } else {
            before.push(GraphErrorView::MissingInput { socket: typing::at(id, s) })
        }
    }
}

/// The inputs of the first `n` of these nodes that nothing feeds, behind other
/// problems.
pub open spec fn all_missing_errors(
    errors: Seq<GraphErrorView>,
    g: GraphView,
    kinds: Kinds,
    ids: Seq<NodeId>,
    n: int,
) -> Seq<GraphErrorView>
    decreases n,
{
    if n <= 0 {
        errors
    } else {
        let before = all_missing_errors(errors, g, kinds, ids, n - 1);
        if g.known(kinds, ids[n - 1]) {
            let inputs = g.kind(kinds, ids[n - 1]).inputs;
            missing_errors(before, g, ids[n - 1], inputs, inputs.len() as int)
        } else {
            before
        }
    }
}

/// Everything that is wrong with a graph.
pub open spec fn problems(g: GraphView, kinds: Kinds) -> Seq<GraphErrorView> {
    let ids = g.ids();
    let n = ids.len() as int;
    let nodes = all_node_errors(Seq::empty(), g, kinds, ids, n);
    let declared = declaration_errors(nodes, g, kinds);
    let edges = all_edge_errors(declared, g, kinds, g.edges.len() as int);
    let missing = all_missing_errors(edges, g, kinds, ids, n);
    let ordered = match topology::topological(g, None) {
        Ok(_) => missing,
        Err(e) => missing.push(e),
    };
    match graph_macros::effective_of_macros(g, kinds) {
        Ok(_) => ordered,
        Err(found) => ordered + found,
    }
}

impl Graph {
    /// Report the problems with an edge.
    fn check_edge(&self, registry: &NodeRegistry, i: usize, errors: &mut Vec<GraphError>)
        requires
            i < self@.edges.len(),
        ensures
            text::seq_of(final(errors)@) == edge_errors(
                text::seq_of(old(errors)@),
                self@,
                registry@,
                i as int,
            ),
    {
        let ghost es = self@.edges;
        assert(es == text::seq_of(self.edges@));
        let edge = &self.edges[i];
        assert(es[i as int] == edge@);
        let produced = match self.socket_type(registry, &edge.from, Direction::Output) {
            Ok(ty) => ty,
            Err(error) => {
                report(errors, error);
                None
            },
        };
        let expected = match self.socket_type(registry, &edge.to, Direction::Input) {
            Ok(ty) => ty,
            Err(error) => {
                report(errors, error);
                None
            },
        };
        match (produced, expected) {
            (Some(produced), Some(expected)) => {
                if produced != expected {
                    report(
                        errors,
                        GraphError::TypeMismatch {
                            from: edge.from.clone(),
                            to: edge.to.clone(),
                            produced,
                            expected,
                        },
                    );
                }
            },
            _ => {},
        }
        let mut again = false;
        let mut j: usize = 0;
        while j < i
            invariant
                j <= i < es.len() == self.edges@.len(),
                es == text::seq_of(self.edges@),
                again == exists|k: int| 0 <= k < j && (#[trigger] es[k]).to == edge@.to,
            decreases i - j,
        {
            assert(es[j as int] == self.edges@[j as int]@);
            if self.edges[j].to.same(&edge.to) {
                again = true;
            }
            j += 1;
        }
        if again {
            report(errors, GraphError::InputAlreadyConnected { socket: edge.to.clone() });
        }
        let constant = match self.definition(registry, edge.to.node) {
            Ok(def) => match def.input(edge.to.socket.as_str()) {
                Some(socket) => socket.constant,
                None => false,
            },
            Err(_) => false,
        };
        if constant {
            report(errors, GraphError::ConstantInput { socket: edge.to.clone() });
        }
    }

    /// Whether something feeds an input.
    fn input_is_fed(&self, id: NodeId, node: &Node, socket: &Socket) -> (r: bool)
        requires
            self@.nodes.contains_key(id),
            node@ == self@.nodes[id],
        ensures
            r == is_fed(self@, id, socket@),
    {
        let ghost g = self@;
        let name = socket.name.as_str();
        let reference = SocketRef::new(id, name);
        proof {
            let p = graph::edge_to(reference@);
            lists::lemma_first_where(g.edges, p);
            assert(reference@ == typing::at(id, socket@));
            match lists::first_where(g.edges, p) {
                Some(e) => {
                    let i = choose|i: int| 0 <= i < g.edges.len() && g.edges[i] == e;
                    assert(g.edges[i].to == reference@);
                },
                None => {
                    assert forall|i: int| 0 <= i < g.edges.len() implies (
                    #[trigger] g.edges[i]).to != reference@ by {
                        assert(!p(g.edges[i]));
                    }
                },
            }
        }
        if self.edge_into(&reference).is_some() || node.params.contains_key(name)
            || socket.optional {
            return true;
        }
        match self.effective_type(id, socket) {
            Some(ty) => socket.default_for(ty).is_some(),
            None => false,
        }
    }

    /// Report the inputs that nothing feeds.
    fn check_missing(&self, registry: &NodeRegistry, errors: &mut Vec<GraphError>)
        ensures
            text::seq_of(final(errors)@) == all_missing_errors(
                text::seq_of(old(errors)@),
                self@,
                registry@,
                self@.ids(),
                self@.ids().len() as int,
            ),
    {
        let ghost g = self@;
        let ghost start = text::seq_of(errors@);
        let ghost ids = g.ids();
        let n: usize = self.nodes.len();
        let mut i: usize = 0;
        while i < n
            invariant
                i <= n == ids.len(),
                g == self@,
                g.nodes == self.nodes@.nodes,
                ids == g.ids(),
                text::seq_of(errors@) == all_missing_errors(start, g, registry@, ids, i as int),
            decreases n - i,
        {
            let id = self.nodes.key_at(i);
            let node = self.nodes.value_at(i);
            match self.definition(registry, id) {
                Ok(def) => {
                    let ghost before = text::seq_of(errors@);
                    let ghost inputs = def@.inputs;
                    let mut k: usize = 0;
                    while k < def.inputs.len()
                        invariant
                            k <= inputs.len() == def.inputs@.len(),
                            inputs == text::seq_of(def.inputs@),
                            g == self@,
                            g.nodes.contains_key(id),
                            node@ == g.nodes[id],
                            text::seq_of(errors@) == missing_errors(before, g, id, inputs, k as int),
                        decreases inputs.len() - k,
                    {
                        let socket = &def.inputs[k];
                        assert(inputs[k as int] == socket@);
                        if !self.input_is_fed(id, node, socket) {
                            let open = match &socket.generic {
                                Some(param) => !node.generics.contains_key(param.as_str()),
                                None => false,
                            };
                            if !open {
                                report(
                                    errors,
                                    GraphError::MissingInput {
                                        socket: SocketRef::new(id, socket.name.as_str()),
                                    },
                                );
                            }
                        }
                        k += 1;
                    }
                },
                Err(_) => {},
            }
            i += 1;
        }
    }

    /// Check that the graph holds together, reporting everything that is wrong
    /// with it.
    pub fn validate(&self, registry: &NodeRegistry) -> (r: Result<(), GraphErrors>)
        requires
            self@.geometry_fits(),
        ensures
            match r {
                Ok(_) => problems(self@, registry@).len() == 0,
                Err(e) => e@ == problems(self@, registry@) && e@.len() > 0,
            },
    {
        let ghost g = self@;
        let ghost kinds = registry@;
        let mut errors: Vec<GraphError> = Vec::new();
        assert(text::seq_of(errors@) =~= Seq::empty());
        self.check_nodes(registry, &mut errors);
        self.check_declarations(registry, &mut errors);
        let ghost declared = text::seq_of(errors@);
        let mut i: usize = 0;
        while i < self.edges.len()
            invariant
                i <= g.edges.len() == self.edges@.len(),
                g == self@,
                kinds == registry@,
                text::seq_of(errors@) == all_edge_errors(declared, g, kinds, i as int),
            decreases g.edges.len() - i,
        {
            self.check_edge(registry, i, &mut errors);
            i += 1;
        }
        self.check_missing(registry, &mut errors);
        match self.topological_order(None) {
            Ok(_) => {},
            Err(e) => {
                report(&mut errors, e);
            },
        }
        match self.effective_macros(registry) {
            Ok(_) => {},
            Err(found) => {
                report_all(&mut errors, &found.0);
            },
        }
        assert(text::seq_of(errors@).len() == errors@.len());
        if errors.len() == 0 {
            Ok(())
        } else {
            Err(GraphErrors(errors))
        }
    }
}


// ---------------------------------------------------------------------------
// What passing means

proof fn lemma_edge_adds(errors: Seq<GraphErrorView>, g: GraphView, kinds: Kinds, i: int)
    ensures
        edge_errors(errors, g, kinds, i).len() >= errors.len(),
{
}

pub(crate) proof fn lemma_edges_add(
    errors: Seq<GraphErrorView>,
    g: GraphView,
    kinds: Kinds,
    i: int,
    n: int,
)
    requires
        0 <= i <= n,
    ensures
        all_edge_errors(errors, g, kinds, n).len() >= all_edge_errors(errors, g, kinds, i).len(),
    decreases n - i,
{
    if i < n {
        lemma_edges_add(errors, g, kinds, i, n - 1);
        lemma_edge_adds(all_edge_errors(errors, g, kinds, n - 1), g, kinds, n - 1);
    }
}

proof fn lemma_missing_adds(
    errors: Seq<GraphErrorView>,
    g: GraphView,
    id: NodeId,
    inputs: Seq<SocketView>,
    k: int,
    n: int,
)
    requires
        0 <= k <= n,
    ensures
        missing_errors(errors, g, id, inputs, n).len() >= missing_errors(
            errors,
            g,
            id,
            inputs,
            k,
        ).len(),
    decreases n - k,
{
    if k < n {
        lemma_missing_adds(errors, g, id, inputs, k, n - 1);
    }
}

pub(crate) proof fn lemma_all_missing_add(
    errors: Seq<GraphErrorView>,
    g: GraphView,
    kinds: Kinds,
    ids: Seq<NodeId>,
    k: int,
    n: int,
)
    requires
        0 <= k <= n,
    ensures
        all_missing_errors(errors, g, kinds, ids, n).len() >= all_missing_errors(
            errors,
            g,
            kinds,
            ids,
            k,
        ).len(),
    decreases n - k,
{
    if k < n {
        lemma_all_missing_add(errors, g, kinds, ids, k, n - 1);
        let before = all_missing_errors(errors, g, kinds, ids, n - 1);
        if g.known(kinds, ids[n - 1]) {
            let inputs = g.kind(kinds, ids[n - 1]).inputs;
            lemma_missing_adds(before, g, ids[n - 1], inputs, 0, inputs.len() as int);
        }
    }
}

/// In a graph with nothing wrong, every edge joins an output and an input that
/// exist and that are of one type where both have one, leads into an input
/// that need not be a constant, and is the only one that leads there.
pub proof fn valid_edges_join_one_type(g: GraphView, kinds: Kinds, i: int)
    requires
        problems(g, kinds).len() == 0,
        0 <= i < g.edges.len(),
    ensures
        typing::type_at(g, kinds, g.edges[i].from, Direction::Output) is Ok,
        typing::type_at(g, kinds, g.edges[i].to, Direction::Input) is Ok,
        match (
            wiring::settled_at(g, kinds, g.edges[i].from, Direction::Output),
            wiring::settled_at(g, kinds, g.edges[i].to, Direction::Input),
        ) {
            (Some(a), Some(b)) => a == b,
            _ => true,
        },
        !feeds_constant(g, kinds, g.edges[i].to),
        forall|j: int| 0 <= j < i ==> (#[trigger] g.edges[j]).to != g.edges[i].to,
{
    let ids = g.ids();
    let n = ids.len() as int;
    let nodes = all_node_errors(Seq::empty(), g, kinds, ids, n);
    let declared = declaration_errors(nodes, g, kinds);
    let count = g.edges.len() as int;
    let edges = all_edge_errors(declared, g, kinds, count);
    lemma_all_missing_add(edges, g, kinds, ids, 0, n);
    lemma_edges_add(declared, g, kinds, i + 1, count);
    assert(all_edge_errors(declared, g, kinds, i + 1).len() == 0);
}

/// In a graph with nothing wrong, every input of every node is fed, need not
/// be, or is of a type that is still open; and the nodes can be computed one
/// after the other.
pub proof fn valid_graphs_can_be_computed(g: GraphView, kinds: Kinds, id: NodeId, k: int)
    requires
        problems(g, kinds).len() == 0,
        g.known(kinds, id),
        0 <= k < g.kind(kinds, id).inputs.len(),
    ensures
        topology::topological(g, None) is Ok,
        ({
            let s = g.kind(kinds, id).inputs[k];
            is_fed(g, id, s) || (s.generic is Some && !g.nodes[id].generics.contains_key(
                s.generic->0,
            ))
        }),
{
    let ids = g.ids();
    let n = ids.len() as int;
    let nodes = all_node_errors(Seq::empty(), g, kinds, ids, n);
    let declared = declaration_errors(nodes, g, kinds);
    let edges = all_edge_errors(declared, g, kinds, g.edges.len() as int);
    idmap::lemma_in_order(g.nodes.dom());
    let at = choose|at: int| 0 <= at < n && ids[at] == id;
    assert(ids.contains(id));
    lemma_all_missing_add(edges, g, kinds, ids, at + 1, n);
    let before = all_missing_errors(edges, g, kinds, ids, at);
    let inputs = g.kind(kinds, id).inputs;
    lemma_missing_adds(before, g, id, inputs, k + 1, inputs.len() as int);
    assert(missing_errors(before, g, id, inputs, k + 1).len() == 0);
}


pub(crate) proof fn lemma_settings_add(
    errors: Seq<GraphErrorView>,
    d: NodeDefinitionView,
    id: NodeId,
    names: Seq<Seq<char>>,
    n: int,
)
    ensures
        setting_errors(errors, d, id, names, n).len() >= errors.len(),
    decreases n,
{
    if n > 0 {
        lemma_settings_add(errors, d, id, names, n - 1);
    }
}

pub(crate) proof fn lemma_declaring_adds(
    found: Found,
    g: GraphView,
    kinds: Kinds,
    ids: Seq<NodeId>,
    n: int,
)
    ensures
        all_declaring(found, g, kinds, ids, n).0.len() >= found.0.len(),
    decreases n,
{
    if n > 0 {
        lemma_declaring_adds(found, g, kinds, ids, n - 1);
        let before = all_declaring(found, g, kinds, ids, n - 1);
        let id = ids[n - 1];
        let names = textmap::in_order(g.nodes[id].settings.dom());
        lemma_settings_add(before.0, g.kind(kinds, id), id, names, names.len() as int);
    }
}

proof fn lemma_misreads_add(
    errors: Seq<GraphErrorView>,
    g: GraphView,
    kinds: Kinds,
    told: Seq<GraphErrorView>,
    root: NodeId,
    ids: Seq<NodeId>,
    k: int,
    n: int,
)
    requires
        0 <= k <= n,
    ensures
        misread_errors(errors, g, kinds, told, root, ids, n).len() >= misread_errors(
            errors,
            g,
            kinds,
            told,
            root,
            ids,
            k,
        ).len(),
    decreases n - k,
{
    if k < n {
        lemma_misreads_add(errors, g, kinds, told, root, ids, k, n - 1);
    }
}

pub(crate) proof fn lemma_all_misreads_add(
    errors: Seq<GraphErrorView>,
    g: GraphView,
    kinds: Kinds,
    told: Seq<GraphErrorView>,
    roots: Seq<NodeId>,
    k: int,
    n: int,
)
    requires
        0 <= k <= n,
    ensures
        all_misreads(errors, g, kinds, told, roots, n).len() >= all_misreads(
            errors,
            g,
            kinds,
            told,
            roots,
            k,
        ).len(),
    decreases n - k,
{
    if k < n {
        lemma_all_misreads_add(errors, g, kinds, told, roots, k, n - 1);
        let before = all_misreads(errors, g, kinds, told, roots, n - 1);
        let ids = idmap::in_order(
            traversal::dependencies(g.edges, Set::empty(), roots[n - 1]),
        );
        lemma_misreads_add(before, g, kinds, told, roots[n - 1], ids, 0, ids.len() as int);
    }
}

/// Where walking the ends finds nothing more, every node behind each of them
/// runs per vertex or was told of.
proof fn lemma_nothing_misread(
    errors: Seq<GraphErrorView>,
    g: GraphView,
    kinds: Kinds,
    told: Seq<GraphErrorView>,
    roots: Seq<NodeId>,
    root: NodeId,
    id: NodeId,
)
    requires
        all_misreads(errors, g, kinds, told, roots, roots.len() as int).len() == 0,
        roots.contains(root),
        traversal::dependencies(g.edges, Set::empty(), root).contains(id),
    ensures
        stages::runs_per_vertex(g, kinds, id) || tells_of_stage(told, id, root),
{
    let at = choose|at: int| 0 <= at < roots.len() && roots[at] == root;
    let behind = traversal::dependencies(g.edges, Set::empty(), root);
    let ids = idmap::in_order(behind);
    let before = all_misreads(errors, g, kinds, told, roots, at);
    lemma_all_misreads_add(errors, g, kinds, told, roots, at + 1, roots.len() as int);
    idmap::lemma_in_order(behind);
    assert(ids.contains(id));
    let k = choose|k: int| 0 <= k < ids.len() && ids[k] == id;
    lemma_misreads_add(before, g, kinds, told, root, ids, k + 1, ids.len() as int);
    assert(misread_errors(before, g, kinds, told, root, ids, k + 1).len() == 0);
}

/// In a graph with nothing wrong, whatever its surfaces, everything behind an
/// end of the vertex stage runs per vertex.
pub proof fn valid_vertex_ends_run_per_vertex(
    g: GraphView,
    kinds: Kinds,
    root: NodeId,
    id: NodeId,
)
    requires
        problems(g, kinds).len() == 0,
        outputs::terminals(g, kinds, Terminal::Vertex).contains(root) || outputs::terminals(
            g,
            kinds,
            Terminal::Varying,
        ).contains(root),
        traversal::dependencies(g.edges, Set::empty(), root).contains(id),
    ensures
        stages::runs_per_vertex(g, kinds, id),
{
    let ids = g.ids();
    let n = ids.len() as int;
    let nodes = all_node_errors(Seq::empty(), g, kinds, ids, n);
    let declared = declaration_errors(nodes, g, kinds);
    let edges = all_edge_errors(declared, g, kinds, g.edges.len() as int);
    lemma_all_missing_add(edges, g, kinds, ids, 0, n);
    lemma_edges_add(declared, g, kinds, 0, g.edges.len() as int);
    let own = output_errors(geometry_errors(user_block_errors(nodes, g), g), g, kinds);
    lemma_declaring_adds((own, Map::empty()), g, kinds, ids, n);
    assert(own.len() == 0);
    let told = plan_errors(g, kinds);
    let vertices = outputs::terminals(g, kinds, Terminal::Vertex);
    let varyings = outputs::terminals(g, kinds, Terminal::Varying);
    let several = several_errors(
        several_errors(
            several_errors(
                geometry_errors(user_block_errors(nodes, g), g),
                abi::SURFACE_OUTPUT_ID@,
                outputs::terminals(g, kinds, Terminal::Surface),
            ),
            abi::VERTEX_OUTPUT_ID@,
            vertices,
        ),
        abi::DISCARD_OUTPUT_ID@,
        outputs::terminals(g, kinds, Terminal::Discard),
    );
    let first = varying_errors(several, g, kinds) + told;
    let second = all_misreads(first, g, kinds, told, vertices, vertices.len() as int);
    assert(own == all_misreads(second, g, kinds, told, varyings, varyings.len() as int));
    lemma_all_misreads_add(second, g, kinds, told, varyings, 0, varyings.len() as int);
    lemma_all_misreads_add(first, g, kinds, told, vertices, 0, vertices.len() as int);
    assert(told.len() == 0);
    if vertices.contains(root) {
        lemma_nothing_misread(first, g, kinds, told, vertices, root, id);
    } else {
        lemma_nothing_misread(second, g, kinds, told, varyings, root, id);
    }
}

} // verus!
