//! What can be wrong with a graph, and what stops source from being generated.

use vstd::prelude::*;

use crate::copies::{clone_vec, copy_vec};
use crate::ids;
use crate::ids::{push_node, push_socket, NodeId, SocketRef, SocketRefView};
use crate::macros;
use crate::macros::MacroValue;
use crate::node::{TypeRule, ValueType};
use crate::text;
use crate::text::push_number;

verus! {

/// Whether a socket was looked for among the inputs or the outputs.
#[derive(Clone, Copy, Debug, PartialEq, Eq, Structural)]
pub enum Direction {
    /// A node input.
    Input,
    /// A node output.
    Output,
}

impl Direction {
    /// The direction as messages name it.
    #[verifier::allow_in_spec]
    pub fn name(self) -> &'static str
        returns
            (match self {
                Direction::Input => "input",
                Direction::Output => "output",
            }),
    {
        match self {
            Direction::Input => "input",
            Direction::Output => "output",
        }
    }
}

/// One problem of a graph.
#[derive(Debug, PartialEq)]
pub enum GraphError {
    /// A node is of a kind that is not registered.
    UnknownDefinition {
        /// The node.
        node: NodeId,
        /// The kind it asks for.
        def: String,
    },
    /// An edge or a call names a node that is not in the graph.
    UnknownNode(NodeId),
    /// A node has no socket of a name.
    UnknownSocket {
        /// The socket that was looked for.
        socket: SocketRef,
        /// Where it was looked for.
        direction: Direction,
    },
    /// The two ends of an edge disagree about the type.
    TypeMismatch {
        /// The output.
        from: SocketRef,
        /// The input.
        to: SocketRef,
        /// The type of the output.
        produced: ValueType,
        /// The type of the input.
        expected: ValueType,
    },
    /// An input has an edge already, and takes no second.
    InputAlreadyConnected {
        /// The input.
        socket: SocketRef,
    },
    /// An input takes a pinned value and no edge.
    ConstantInput {
        /// The input.
        socket: SocketRef,
    },
    /// An edge would close a cycle.
    WouldCycle {
        /// The output.
        from: SocketRef,
        /// The input.
        to: SocketRef,
    },
    /// The graph holds a cycle, so it was not made through `connect`.
    Cycle {
        /// The nodes that could not be put in order.
        nodes: Vec<NodeId>,
    },
    /// A pinned value is not of its socket's type.
    ParamTypeMismatch {
        /// The input.
        socket: SocketRef,
        /// The type of the value.
        supplied: ValueType,
        /// The type of the input.
        expected: ValueType,
    },
    /// A pinned value is for an input the node does not have.
    UnknownParam {
        /// The node.
        node: NodeId,
        /// The name of the value.
        param: String,
    },
    /// An input is neither connected nor pinned and has no default.
    MissingInput {
        /// The input.
        socket: SocketRef,
    },
    /// Two kinds of node disagree about a macro's default, and nothing pins it.
    ConflictingMacroDefault {
        /// The macro.
        name: String,
        /// One default.
        first: MacroValue,
        /// The other.
        second: MacroValue,
    },
    /// A pinned macro is no identifier.
    InvalidMacroName {
        /// The name.
        name: String,
    },
    /// A pinned macro is of another kind than its declaration.
    MacroKindMismatch {
        /// The macro.
        name: String,
        /// The pinned value.
        supplied: MacroValue,
        /// The declared default.
        declared: MacroValue,
    },
    /// A node has not settled one of its type parameters.
    UnresolvedGeneric {
        /// The node.
        node: NodeId,
        /// The parameter.
        param: String,
    },
    /// A type parameter cannot be of a type.
    InvalidGenericType {
        /// The node.
        node: NodeId,
        /// The parameter.
        param: String,
        /// The type that was asked for.
        ty: ValueType,
        /// The types it can be of.
        allowed: Vec<ValueType>,
    },
    /// Two type parameters do not combine.
    IncompatibleGenerics {
        /// The node.
        node: NodeId,
        /// The socket whose type follows from them.
        socket: String,
        /// The rule by which they would combine.
        rule: TypeRule,
        /// The first parameter and its type.
        a: (String, ValueType),
        /// The second parameter and its type.
        b: (String, ValueType),
    },
    /// A node carries a setting its kind does not have.
    UnknownSetting {
        /// The node.
        node: NodeId,
        /// The setting.
        setting: String,
    },
    /// A setting has a text it cannot have.
    InvalidSetting {
        /// The node.
        node: NodeId,
        /// The setting.
        setting: String,
        /// The text.
        value: String,
        /// What is wrong with it.
        reason: String,
    },
    /// Two nodes declare one name with two types.
    ConflictingDeclaration {
        /// The name.
        name: String,
        /// The type declared first.
        first: ValueType,
        /// The other type.
        second: ValueType,
    },
    /// A node reads the application's block and the graph declares none.
    NoUserBlock {
        /// The node.
        node: NodeId,
    },
    /// A node reads a field the application's block does not declare.
    UnknownUserField {
        /// The node.
        node: NodeId,
        /// The field.
        field: String,
        /// The fields it declares.
        declared: Vec<String>,
    },
    /// A node reads a field as another type than it is declared.
    UserFieldTypeMismatch {
        /// The node.
        node: NodeId,
        /// The field.
        field: String,
        /// The type it is read as.
        resolved: ValueType,
        /// The type it is declared as.
        declared: ValueType,
    },
    /// A node names an attribute the graph does not declare.
    UnknownAttribute {
        /// The node.
        node: NodeId,
        /// The attribute.
        attribute: String,
        /// The attributes it declares.
        declared: Vec<String>,
    },
    /// A node reads an attribute as another type than it is declared.
    AttributeTypeMismatch {
        /// The node.
        node: NodeId,
        /// The attribute.
        attribute: String,
        /// The type it is read as.
        resolved: ValueType,
        /// The type it is declared as.
        declared: ValueType,
    },
    /// A declared attribute cannot be one.
    InvalidAttribute {
        /// What is wrong with it.
        reason: String,
    },
    /// The declared block cannot be one.
    InvalidUserBlock {
        /// What is wrong with it.
        reason: String,
    },
    /// A graph has an output twice that it can have once.
    DuplicateOutput {
        /// The output.
        kind: String,
        /// The nodes that are it.
        nodes: Vec<NodeId>,
    },
    /// A node would run in a stage that cannot run it.
    WrongStage {
        /// The node.
        node: NodeId,
        /// Its kind.
        def: String,
        /// The output it would run for.
        output: NodeId,
        /// Why that stage cannot run it.
        reason: String,
    },
}

/// What a [`GraphError`] stands for.
#[verifier::ext_equal]
pub enum GraphErrorView {
    /// A node is of a kind that is not registered.
    UnknownDefinition {
        /// The node.
        node: NodeId,
        /// The kind it asks for.
        def: Seq<char>,
    },
    /// An edge or a call names a node that is not in the graph.
    UnknownNode(NodeId),
    /// A node has no socket of a name.
    UnknownSocket {
        /// The socket that was looked for.
        socket: SocketRefView,
        /// Where it was looked for.
        direction: Direction,
    },
    /// The two ends of an edge disagree about the type.
    TypeMismatch {
        /// The output.
        from: SocketRefView,
        /// The input.
        to: SocketRefView,
        /// The type of the output.
        produced: ValueType,
        /// The type of the input.
        expected: ValueType,
    },
    /// An input has an edge already, and takes no second.
    InputAlreadyConnected {
        /// The input.
        socket: SocketRefView,
    },
    /// An input takes a pinned value and no edge.
    ConstantInput {
        /// The input.
        socket: SocketRefView,
    },
    /// An edge would close a cycle.
    WouldCycle {
        /// The output.
        from: SocketRefView,
        /// The input.
        to: SocketRefView,
    },
    /// The graph holds a cycle, so it was not made through `connect`.
    Cycle {
        /// The nodes that could not be put in order.
        nodes: Seq<NodeId>,
    },
    /// A pinned value is not of its socket's type.
    ParamTypeMismatch {
        /// The input.
        socket: SocketRefView,
        /// The type of the value.
        supplied: ValueType,
        /// The type of the input.
        expected: ValueType,
    },
    /// A pinned value is for an input the node does not have.
    UnknownParam {
        /// The node.
        node: NodeId,
        /// The name of the value.
        param: Seq<char>,
    },
    /// An input is neither connected nor pinned and has no default.
    MissingInput {
        /// The input.
        socket: SocketRefView,
    },
    /// Two kinds of node disagree about a macro's default, and nothing pins it.
    ConflictingMacroDefault {
        /// The macro.
        name: Seq<char>,
        /// One default.
        first: MacroValue,
        /// The other.
        second: MacroValue,
    },
    /// A pinned macro is no identifier.
    InvalidMacroName {
        /// The name.
        name: Seq<char>,
    },
    /// A pinned macro is of another kind than its declaration.
    MacroKindMismatch {
        /// The macro.
        name: Seq<char>,
        /// The pinned value.
        supplied: MacroValue,
        /// The declared default.
        declared: MacroValue,
    },
    /// A node has not settled one of its type parameters.
    UnresolvedGeneric {
        /// The node.
        node: NodeId,
        /// The parameter.
        param: Seq<char>,
    },
    /// A type parameter cannot be of a type.
    InvalidGenericType {
        /// The node.
        node: NodeId,
        /// The parameter.
        param: Seq<char>,
        /// The type that was asked for.
        ty: ValueType,
        /// The types it can be of.
        allowed: Seq<ValueType>,
    },
    /// Two type parameters do not combine.
    IncompatibleGenerics {
        /// The node.
        node: NodeId,
        /// The socket whose type follows from them.
        socket: Seq<char>,
        /// The rule by which they would combine.
        rule: TypeRule,
        /// The first parameter and its type.
        a: (Seq<char>, ValueType),
        /// The second parameter and its type.
        b: (Seq<char>, ValueType),
    },
    /// A node carries a setting its kind does not have.
    UnknownSetting {
        /// The node.
        node: NodeId,
        /// The setting.
        setting: Seq<char>,
    },
    /// A setting has a text it cannot have.
    InvalidSetting {
        /// The node.
        node: NodeId,
        /// The setting.
        setting: Seq<char>,
        /// The text.
        value: Seq<char>,
        /// What is wrong with it.
        reason: Seq<char>,
    },
    /// Two nodes declare one name with two types.
    ConflictingDeclaration {
        /// The name.
        name: Seq<char>,
        /// The type declared first.
        first: ValueType,
        /// The other type.
        second: ValueType,
    },
    /// A node reads the application's block and the graph declares none.
    NoUserBlock {
        /// The node.
        node: NodeId,
    },
    /// A node reads a field the application's block does not declare.
    UnknownUserField {
        /// The node.
        node: NodeId,
        /// The field.
        field: Seq<char>,
        /// The fields it declares.
        declared: Seq<Seq<char>>,
    },
    /// A node reads a field as another type than it is declared.
    UserFieldTypeMismatch {
        /// The node.
        node: NodeId,
        /// The field.
        field: Seq<char>,
        /// The type it is read as.
        resolved: ValueType,
        /// The type it is declared as.
        declared: ValueType,
    },
    /// A node names an attribute the graph does not declare.
    UnknownAttribute {
        /// The node.
        node: NodeId,
        /// The attribute.
        attribute: Seq<char>,
        /// The attributes it declares.
        declared: Seq<Seq<char>>,
    },
    /// A node reads an attribute as another type than it is declared.
    AttributeTypeMismatch {
        /// The node.
        node: NodeId,
        /// The attribute.
        attribute: Seq<char>,
        /// The type it is read as.
        resolved: ValueType,
        /// The type it is declared as.
        declared: ValueType,
    },
    /// A declared attribute cannot be one.
    InvalidAttribute {
        /// What is wrong with it.
        reason: Seq<char>,
    },
    /// The declared block cannot be one.
    InvalidUserBlock {
        /// What is wrong with it.
        reason: Seq<char>,
    },
    /// A graph has an output twice that it can have once.
    DuplicateOutput {
        /// The output.
        kind: Seq<char>,
        /// The nodes that are it.
        nodes: Seq<NodeId>,
    },
    /// A node would run in a stage that cannot run it.
    WrongStage {
        /// The node.
        node: NodeId,
        /// Its kind.
        def: Seq<char>,
        /// The output it would run for.
        output: NodeId,
        /// Why that stage cannot run it.
        reason: Seq<char>,
    },
}

impl View for GraphError {
    type V = GraphErrorView;

    open spec fn view(&self) -> GraphErrorView {
        match *self {
            GraphError::UnknownDefinition { node, def } => GraphErrorView::UnknownDefinition {
                node: node,
                def: def@,
            },
            GraphError::UnknownNode(x) => GraphErrorView::UnknownNode(x),
            GraphError::UnknownSocket { socket, direction } => GraphErrorView::UnknownSocket {
                socket: socket@,
                direction: direction,
            },
            GraphError::TypeMismatch { from, to, produced, expected } => GraphErrorView::TypeMismatch {
                from: from@,
                to: to@,
                produced: produced,
                expected: expected,
            },
            GraphError::InputAlreadyConnected { socket } => GraphErrorView::InputAlreadyConnected {
                socket: socket@,
            },
            GraphError::ConstantInput { socket } => GraphErrorView::ConstantInput {
                socket: socket@,
            },
            GraphError::WouldCycle { from, to } => GraphErrorView::WouldCycle {
                from: from@,
                to: to@,
            },
            GraphError::Cycle { nodes } => GraphErrorView::Cycle {
                nodes: nodes@,
            },
            GraphError::ParamTypeMismatch { socket, supplied, expected } => GraphErrorView::ParamTypeMismatch {
                socket: socket@,
                supplied: supplied,
                expected: expected,
            },
            GraphError::UnknownParam { node, param } => GraphErrorView::UnknownParam {
                node: node,
                param: param@,
            },
            GraphError::MissingInput { socket } => GraphErrorView::MissingInput {
                socket: socket@,
            },
            GraphError::ConflictingMacroDefault { name, first, second } => GraphErrorView::ConflictingMacroDefault {
                name: name@,
                first: first,
                second: second,
            },
            GraphError::InvalidMacroName { name } => GraphErrorView::InvalidMacroName {
                name: name@,
            },
            GraphError::MacroKindMismatch { name, supplied, declared } => GraphErrorView::MacroKindMismatch {
                name: name@,
                supplied: supplied,
                declared: declared,
            },
            GraphError::UnresolvedGeneric { node, param } => GraphErrorView::UnresolvedGeneric {
                node: node,
                param: param@,
            },
            GraphError::InvalidGenericType { node, param, ty, allowed } => GraphErrorView::InvalidGenericType {
                node: node,
                param: param@,
                ty: ty,
                allowed: allowed@,
            },
            GraphError::IncompatibleGenerics { node, socket, rule, a, b } => GraphErrorView::IncompatibleGenerics {
                node: node,
                socket: socket@,
                rule: rule,
                a: (a.0@, a.1),
                b: (b.0@, b.1),
            },
            GraphError::UnknownSetting { node, setting } => GraphErrorView::UnknownSetting {
                node: node,
                setting: setting@,
            },
            GraphError::InvalidSetting { node, setting, value, reason } => GraphErrorView::InvalidSetting {
                node: node,
                setting: setting@,
                value: value@,
                reason: reason@,
            },
            GraphError::ConflictingDeclaration { name, first, second } => GraphErrorView::ConflictingDeclaration {
                name: name@,
                first: first,
                second: second,
            },
            GraphError::NoUserBlock { node } => GraphErrorView::NoUserBlock {
                node: node,
            },
            GraphError::UnknownUserField { node, field, declared } => GraphErrorView::UnknownUserField {
                node: node,
                field: field@,
                declared: text::seq_of(declared@),
            },
            GraphError::UserFieldTypeMismatch { node, field, resolved, declared } => GraphErrorView::UserFieldTypeMismatch {
                node: node,
                field: field@,
                resolved: resolved,
                declared: declared,
            },
            GraphError::UnknownAttribute { node, attribute, declared } => GraphErrorView::UnknownAttribute {
                node: node,
                attribute: attribute@,
                declared: text::seq_of(declared@),
            },
            GraphError::AttributeTypeMismatch { node, attribute, resolved, declared } => GraphErrorView::AttributeTypeMismatch {
                node: node,
                attribute: attribute@,
                resolved: resolved,
                declared: declared,
            },
            GraphError::InvalidAttribute { reason } => GraphErrorView::InvalidAttribute {
                reason: reason@,
            },
            GraphError::InvalidUserBlock { reason } => GraphErrorView::InvalidUserBlock {
                reason: reason@,
            },
            GraphError::DuplicateOutput { kind, nodes } => GraphErrorView::DuplicateOutput {
                kind: kind@,
                nodes: nodes@,
            },
            GraphError::WrongStage { node, def, output, reason } => GraphErrorView::WrongStage {
                node: node,
                def: def@,
                output: output,
                reason: reason@,
            },
        }
    }
}

impl Clone for GraphError {
    fn clone(&self) -> (r: Self)
        ensures
            r@ == self@,
    {
        match self {
            GraphError::UnknownDefinition { node, def } => GraphError::UnknownDefinition {
                node: *node,
                def: def.clone(),
            },
            GraphError::UnknownNode(x) => GraphError::UnknownNode(*x),
            GraphError::UnknownSocket { socket, direction } => GraphError::UnknownSocket {
                socket: socket.clone(),
                direction: *direction,
            },
            GraphError::TypeMismatch { from, to, produced, expected } => GraphError::TypeMismatch {
                from: from.clone(),
                to: to.clone(),
                produced: *produced,
                expected: *expected,
            },
            GraphError::InputAlreadyConnected { socket } => GraphError::InputAlreadyConnected {
                socket: socket.clone(),
            },
            GraphError::ConstantInput { socket } => GraphError::ConstantInput {
                socket: socket.clone(),
            },
            GraphError::WouldCycle { from, to } => GraphError::WouldCycle {
                from: from.clone(),
                to: to.clone(),
            },
            GraphError::Cycle { nodes } => GraphError::Cycle {
                nodes: copy_vec(nodes),
            },
            GraphError::ParamTypeMismatch { socket, supplied, expected } => GraphError::ParamTypeMismatch {
                socket: socket.clone(),
                supplied: *supplied,
                expected: *expected,
            },
            GraphError::UnknownParam { node, param } => GraphError::UnknownParam {
                node: *node,
                param: param.clone(),
            },
            GraphError::MissingInput { socket } => GraphError::MissingInput {
                socket: socket.clone(),
            },
            GraphError::ConflictingMacroDefault { name, first, second } => GraphError::ConflictingMacroDefault {
                name: name.clone(),
                first: *first,
                second: *second,
            },
            GraphError::InvalidMacroName { name } => GraphError::InvalidMacroName {
                name: name.clone(),
            },
            GraphError::MacroKindMismatch { name, supplied, declared } => GraphError::MacroKindMismatch {
                name: name.clone(),
                supplied: *supplied,
                declared: *declared,
            },
            GraphError::UnresolvedGeneric { node, param } => GraphError::UnresolvedGeneric {
                node: *node,
                param: param.clone(),
            },
            GraphError::InvalidGenericType { node, param, ty, allowed } => GraphError::InvalidGenericType {
                node: *node,
                param: param.clone(),
                ty: *ty,
                allowed: copy_vec(allowed),
            },
            GraphError::IncompatibleGenerics { node, socket, rule, a, b } => GraphError::IncompatibleGenerics {
                node: *node,
                socket: socket.clone(),
                rule: *rule,
                a: (a.0.clone(), a.1),
                b: (b.0.clone(), b.1),
            },
            GraphError::UnknownSetting { node, setting } => GraphError::UnknownSetting {
                node: *node,
                setting: setting.clone(),
            },
            GraphError::InvalidSetting { node, setting, value, reason } => GraphError::InvalidSetting {
                node: *node,
                setting: setting.clone(),
                value: value.clone(),
                reason: reason.clone(),
            },
            GraphError::ConflictingDeclaration { name, first, second } => GraphError::ConflictingDeclaration {
                name: name.clone(),
                first: *first,
                second: *second,
            },
            GraphError::NoUserBlock { node } => GraphError::NoUserBlock {
                node: *node,
            },
            GraphError::UnknownUserField { node, field, declared } => GraphError::UnknownUserField {
                node: *node,
                field: field.clone(),
                declared: clone_vec(declared),
            },
            GraphError::UserFieldTypeMismatch { node, field, resolved, declared } => GraphError::UserFieldTypeMismatch {
                node: *node,
                field: field.clone(),
                resolved: *resolved,
                declared: *declared,
            },
            GraphError::UnknownAttribute { node, attribute, declared } => GraphError::UnknownAttribute {
                node: *node,
                attribute: attribute.clone(),
                declared: clone_vec(declared),
            },
            GraphError::AttributeTypeMismatch { node, attribute, resolved, declared } => GraphError::AttributeTypeMismatch {
                node: *node,
                attribute: attribute.clone(),
                resolved: *resolved,
                declared: *declared,
            },
            GraphError::InvalidAttribute { reason } => GraphError::InvalidAttribute {
                reason: reason.clone(),
            },
            GraphError::InvalidUserBlock { reason } => GraphError::InvalidUserBlock {
                reason: reason.clone(),
            },
            GraphError::DuplicateOutput { kind, nodes } => GraphError::DuplicateOutput {
                kind: kind.clone(),
                nodes: copy_vec(nodes),
            },
            GraphError::WrongStage { node, def, output, reason } => GraphError::WrongStage {
                node: *node,
                def: def.clone(),
                output: *output,
                reason: reason.clone(),
            },
        }
    }
}

/// Nodes parted by `separator`, appended to `out`.
pub open spec fn nodes_text(out: Seq<char>, nodes: Seq<NodeId>, separator: Seq<char>) -> Seq<char>
    decreases nodes.len(),
{
    if nodes.len() == 0 {
        out
    } else {
        let before = nodes_text(out, nodes.drop_last(), separator);
        ids::node_text(
            if nodes.len() > 1 {
                before + separator
            } else {
                before
            },
            nodes.last(),
        )
    }
}

/// Append nodes parted by `separator`.
pub fn push_nodes(out: &mut String, nodes: &Vec<NodeId>, separator: &str)
    ensures
        final(out)@ == nodes_text(old(out)@, nodes@, separator@),
{
    let ghost head = out@;
    let mut i: usize = 0;
    while i < nodes.len()
        invariant
            i <= nodes@.len(),
            out@ == nodes_text(head, nodes@.take(i as int), separator@),
        decreases nodes@.len() - i,
    {
        assert(nodes@.take(i + 1).drop_last() =~= nodes@.take(i as int));
        if i > 0 {
            out.append(separator);
        }
        push_node(out, nodes[i]);
        i += 1;
    }
    assert(nodes@.take(i as int) =~= nodes@);
}

/// Types parted by `, `, appended to `out`.
pub open spec fn types_text(out: Seq<char>, types: Seq<ValueType>) -> Seq<char>
    decreases types.len(),
{
    if types.len() == 0 {
        out
    } else {
        let before = types_text(out, types.drop_last());
        (if types.len() > 1 {
            before + ", "@
        } else {
            before
        }) + types.last().wxsl_type()@
    }
}

fn push_types(out: &mut String, types: &Vec<ValueType>)
    ensures
        final(out)@ == types_text(old(out)@, types@),
{
    let ghost head = out@;
    let mut i: usize = 0;
    while i < types.len()
        invariant
            i <= types@.len(),
            out@ == types_text(head, types@.take(i as int)),
        decreases types@.len() - i,
    {
        assert(types@.take(i + 1).drop_last() =~= types@.take(i as int));
        if i > 0 {
            out.append(", ");
        }
        out.append(types[i].wxsl_type());
        i += 1;
    }
    assert(types@.take(i as int) =~= types@);
}

/// Names parted by `, `, appended to `out`.
pub open spec fn names_text(out: Seq<char>, names: Seq<Seq<char>>) -> Seq<char>
    decreases names.len(),
{
    if names.len() == 0 {
        out
    } else {
        let before = names_text(out, names.drop_last());
        (if names.len() > 1 {
            before + ", "@
        } else {
            before
        }) + names.last()
    }
}

/// Append names parted by `, `.
pub fn push_names(out: &mut String, names: &Vec<String>)
    ensures
        final(out)@ == names_text(old(out)@, text::seq_of(names@)),
{
    let ghost head = out@;
    let ghost s = text::seq_of(names@);
    let mut i: usize = 0;
    while i < names.len()
        invariant
            i <= names@.len() == s.len(),
            s == text::seq_of(names@),
            out@ == names_text(head, s.take(i as int)),
        decreases s.len() - i,
    {
        assert(s.take(i + 1).drop_last() =~= s.take(i as int));
        if i > 0 {
            out.append(", ");
        }
        out.append(names[i].as_str());
        i += 1;
    }
    assert(s.take(i as int) =~= s);
}

/// A problem as a message, appended to `out`.
pub open spec fn graph_error_text(out: Seq<char>, e: GraphErrorView) -> Seq<char> {
    match e {
        GraphErrorView::UnknownDefinition { node, def } => ids::node_text(out + "node "@, node)
            + " references unknown node definition `"@ + def + "`"@,
        GraphErrorView::UnknownNode(id) => ids::node_text(out + "no such node: "@, id),
        GraphErrorView::UnknownSocket { socket, direction } => ids::node_text(
            out + "node "@,
            socket.node,
        ) + " has no "@ + direction.name()@ + " socket `"@ + socket.socket + "`"@,
        GraphErrorView::TypeMismatch { from, to, produced, expected } => ids::socket_text(
            ids::socket_text(out + "type mismatch connecting "@, from) + " ("@ + produced.wxsl_type()@
                + ") to "@,
            to,
        ) + " ("@ + expected.wxsl_type()@ + ")"@,
        GraphErrorView::InputAlreadyConnected { socket } => ids::socket_text(out + "input "@, socket)
            + " is already connected"@,
        GraphErrorView::ConstantInput { socket } => ids::socket_text(out + "input "@, socket)
            + " takes a constant and cannot be connected"@,
        GraphErrorView::WouldCycle { from, to } => ids::socket_text(
            ids::socket_text(out + "connecting "@, from) + " to "@,
            to,
        ) + " would create a cycle"@,
        GraphErrorView::Cycle { nodes } => nodes_text(
            out + "graph contains a cycle: "@,
            nodes,
            " -> "@,
        ),
        GraphErrorView::ParamTypeMismatch { socket, supplied, expected } => ids::socket_text(
            out + "parameter for "@,
            socket,
        ) + " has type "@ + supplied.wxsl_type()@ + ", but the socket is "@
            + expected.wxsl_type()@,
        GraphErrorView::UnknownParam { node, param } => ids::node_text(out + "node "@, node)
            + " has a parameter `"@ + param + "` that matches no input socket"@,
        GraphErrorView::MissingInput { socket } => ids::socket_text(out + "input "@, socket)
            + " is not connected and has no value or default"@,
        GraphErrorView::ConflictingMacroDefault { name, first, second } => out + "macro `"@ + name
            + "` is declared with conflicting defaults ("@ + macros::macro_text(first) + " and "@
            + macros::macro_text(second) + "); pin it on the graph to resolve"@,
        GraphErrorView::InvalidMacroName { name } => out + "macro name `"@ + name
            + "` is not a valid WXSL identifier"@,
        GraphErrorView::MacroKindMismatch { name, supplied, declared } => out + "macro `"@ + name
            + "` is declared as "@ + declared.kind().name()@ + " but the graph pins it to "@
            + supplied.kind().name()@ + " ("@ + macros::macro_text(supplied) + " vs "@ + macros::macro_text(
            declared,
        ) + ")"@,
        GraphErrorView::UnresolvedGeneric { node, param } => ids::node_text(out + "node "@, node)
            + " has not resolved its generic parameter `"@ + param
            + "`; connect something to a socket that uses it, or pick a type explicitly"@,
        GraphErrorView::InvalidGenericType { node, param, ty, allowed } => types_text(
            ids::node_text(out + "node "@, node) + "'s generic parameter `"@ + param + "` cannot be "@
                + ty.wxsl_type()@ + "; it allows "@,
            allowed,
        ),
        GraphErrorView::IncompatibleGenerics { node, socket, rule, a, b } => ids::node_text(
            out + "node "@,
            node,
        ) + "'s socket `"@ + socket + "` cannot combine `"@ + a.0 + "` ("@ + a.1.wxsl_type()@
            + ") with `"@ + b.0 + "` ("@ + b.1.wxsl_type()@ + ") as a "@ + rule.name()@ + ": "@
            + rule.requirement()@,
        GraphErrorView::UnknownSetting { node, setting } => ids::node_text(out + "node "@, node)
            + " has a setting `"@ + setting + "` that its definition does not declare"@,
        GraphErrorView::InvalidSetting { node, setting, value, reason } => ids::node_text(
            out + "setting `"@ + setting + "` of node "@,
            node,
        ) + ": `"@ + value + "` "@ + reason,
        GraphErrorView::ConflictingDeclaration { name, first, second } => out + "`"@ + name
            + "` is declared both as "@ + first.wxsl_type()@ + " and as "@ + second.wxsl_type()@,
        GraphErrorView::NoUserBlock { node } => ids::node_text(out + "node "@, node)
            + " reads the application's block, but the graph declares none"@,
        GraphErrorView::UnknownUserField { node, field, declared } => names_text(
            ids::node_text(out + "node "@, node) + " reads `"@ + field
                + "`, which the application's block does not declare (declared: "@,
            declared,
        ) + ")"@,
        GraphErrorView::UserFieldTypeMismatch { node, field, resolved, declared } => ids::node_text(
            out + "node "@,
            node,
        ) + " reads `"@ + field + "` as "@ + resolved.wxsl_type()@ + ", but it is declared as "@
            + declared.wxsl_type()@,
        GraphErrorView::UnknownAttribute { node, attribute, declared } => names_text(
            ids::node_text(out + "node "@, node) + " names the attribute `"@ + attribute
                + "`, which the graph does not declare (declared: "@,
            declared,
        ) + ")"@,
        GraphErrorView::AttributeTypeMismatch { node, attribute, resolved, declared } => ids::node_text(
            out + "node "@,
            node,
        ) + " reads the attribute `"@ + attribute + "` as "@ + resolved.wxsl_type()@
            + ", but it is declared as "@ + declared.wxsl_type()@,
        GraphErrorView::InvalidAttribute { reason } => out + "invalid attribute: "@ + reason,
        GraphErrorView::InvalidUserBlock { reason } => out + "invalid user block: "@ + reason,
        GraphErrorView::DuplicateOutput { kind, nodes } => nodes_text(
            out + "more than one "@ + kind + " node: "@,
            nodes,
            ", "@,
        ),
        GraphErrorView::WrongStage { node, def, output, reason } => ids::node_text(
            ids::node_text(out + "node "@, node) + " (`"@ + def + "`) cannot feed output "@,
            output,
        ) + ": "@ + reason,
    }
}

impl GraphError {
    /// Append the problem as a message.
    pub fn push_text(&self, out: &mut String)
        ensures
            final(out)@ == graph_error_text(old(out)@, self@),
    {
        match self {
            GraphError::UnknownDefinition { node, def } => {
                out.append("node ");
                push_node(out, *node);
                out.append(" references unknown node definition `");
                out.append(def.as_str());
                out.append("`");
            },
            GraphError::UnknownNode(id) => {
                out.append("no such node: ");
                push_node(out, *id);
            },
            GraphError::UnknownSocket { socket, direction } => {
                out.append("node ");
                push_node(out, socket.node);
                out.append(" has no ");
                out.append(direction.name());
                out.append(" socket `");
                out.append(socket.socket.as_str());
                out.append("`");
            },
            GraphError::TypeMismatch { from, to, produced, expected } => {
                out.append("type mismatch connecting ");
                push_socket(out, from);
                out.append(" (");
                out.append(produced.wxsl_type());
                out.append(") to ");
                push_socket(out, to);
                out.append(" (");
                out.append(expected.wxsl_type());
                out.append(")");
            },
            GraphError::InputAlreadyConnected { socket } => {
                out.append("input ");
                push_socket(out, socket);
                out.append(" is already connected");
            },
            GraphError::ConstantInput { socket } => {
                out.append("input ");
                push_socket(out, socket);
                out.append(" takes a constant and cannot be connected");
            },
            GraphError::WouldCycle { from, to } => {
                out.append("connecting ");
                push_socket(out, from);
                out.append(" to ");
                push_socket(out, to);
                out.append(" would create a cycle");
            },
            GraphError::Cycle { nodes } => {
                out.append("graph contains a cycle: ");
                push_nodes(out, nodes, " -> ");
            },
            GraphError::ParamTypeMismatch { socket, supplied, expected } => {
                out.append("parameter for ");
                push_socket(out, socket);
                out.append(" has type ");
                out.append(supplied.wxsl_type());
                out.append(", but the socket is ");
                out.append(expected.wxsl_type());
            },
            GraphError::UnknownParam { node, param } => {
                out.append("node ");
                push_node(out, *node);
                out.append(" has a parameter `");
                out.append(param.as_str());
                out.append("` that matches no input socket");
            },
            GraphError::MissingInput { socket } => {
                out.append("input ");
                push_socket(out, socket);
                out.append(" is not connected and has no value or default");
            },
            GraphError::ConflictingMacroDefault { name, first, second } => {
                out.append("macro `");
                out.append(name.as_str());
                out.append("` is declared with conflicting defaults (");
                out.append(first.text().as_str());
                out.append(" and ");
                out.append(second.text().as_str());
                out.append("); pin it on the graph to resolve");
            },
            GraphError::InvalidMacroName { name } => {
                out.append("macro name `");
                out.append(name.as_str());
                out.append("` is not a valid WXSL identifier");
            },
            GraphError::MacroKindMismatch { name, supplied, declared } => {
                out.append("macro `");
                out.append(name.as_str());
                out.append("` is declared as ");
                out.append(declared.kind().name());
                out.append(" but the graph pins it to ");
                out.append(supplied.kind().name());
                out.append(" (");
                out.append(supplied.text().as_str());
                out.append(" vs ");
                out.append(declared.text().as_str());
                out.append(")");
            },
            GraphError::UnresolvedGeneric { node, param } => {
                out.append("node ");
                push_node(out, *node);
                out.append(" has not resolved its generic parameter `");
                out.append(param.as_str());
                out.append(
                    "`; connect something to a socket that uses it, or pick a type explicitly",
                );
            },
            GraphError::InvalidGenericType { node, param, ty, allowed } => {
                out.append("node ");
                push_node(out, *node);
                out.append("'s generic parameter `");
                out.append(param.as_str());
                out.append("` cannot be ");
                out.append(ty.wxsl_type());
                out.append("; it allows ");
                push_types(out, allowed);
            },
            GraphError::IncompatibleGenerics { node, socket, rule, a, b } => {
                out.append("node ");
                push_node(out, *node);
                out.append("'s socket `");
                out.append(socket.as_str());
                out.append("` cannot combine `");
                out.append(a.0.as_str());
                out.append("` (");
                out.append(a.1.wxsl_type());
                out.append(") with `");
                out.append(b.0.as_str());
                out.append("` (");
                out.append(b.1.wxsl_type());
                out.append(") as a ");
                out.append(rule.name());
                out.append(": ");
                out.append(rule.requirement());
            },
            GraphError::UnknownSetting { node, setting } => {
                out.append("node ");
                push_node(out, *node);
                out.append(" has a setting `");
                out.append(setting.as_str());
                out.append("` that its definition does not declare");
            },
            GraphError::InvalidSetting { node, setting, value, reason } => {
                out.append("setting `");
                out.append(setting.as_str());
                out.append("` of node ");
                push_node(out, *node);
                out.append(": `");
                out.append(value.as_str());
                out.append("` ");
                out.append(reason.as_str());
            },
            GraphError::ConflictingDeclaration { name, first, second } => {
                out.append("`");
                out.append(name.as_str());
                out.append("` is declared both as ");
                out.append(first.wxsl_type());
                out.append(" and as ");
                out.append(second.wxsl_type());
            },
            GraphError::NoUserBlock { node } => {
                out.append("node ");
                push_node(out, *node);
                out.append(" reads the application's block, but the graph declares none");
            },
            GraphError::UnknownUserField { node, field, declared } => {
                out.append("node ");
                push_node(out, *node);
                out.append(" reads `");
                out.append(field.as_str());
                out.append("`, which the application's block does not declare (declared: ");
                push_names(out, declared);
                out.append(")");
            },
            GraphError::UserFieldTypeMismatch { node, field, resolved, declared } => {
                out.append("node ");
                push_node(out, *node);
                out.append(" reads `");
                out.append(field.as_str());
                out.append("` as ");
                out.append(resolved.wxsl_type());
                out.append(", but it is declared as ");
                out.append(declared.wxsl_type());
            },
            GraphError::UnknownAttribute { node, attribute, declared } => {
                out.append("node ");
                push_node(out, *node);
                out.append(" names the attribute `");
                out.append(attribute.as_str());
                out.append("`, which the graph does not declare (declared: ");
                push_names(out, declared);
                out.append(")");
            },
            GraphError::AttributeTypeMismatch { node, attribute, resolved, declared } => {
                out.append("node ");
                push_node(out, *node);
                out.append(" reads the attribute `");
                out.append(attribute.as_str());
                out.append("` as ");
                out.append(resolved.wxsl_type());
                out.append(", but it is declared as ");
                out.append(declared.wxsl_type());
            },
            GraphError::InvalidAttribute { reason } => {
                out.append("invalid attribute: ");
                out.append(reason.as_str());
            },
            GraphError::InvalidUserBlock { reason } => {
                out.append("invalid user block: ");
                out.append(reason.as_str());
            },
            GraphError::DuplicateOutput { kind, nodes } => {
                out.append("more than one ");
                out.append(kind.as_str());
                out.append(" node: ");
                push_nodes(out, nodes, ", ");
            },
            GraphError::WrongStage { node, def, output, reason } => {
                out.append("node ");
                push_node(out, *node);
                out.append(" (`");
                out.append(def.as_str());
                out.append("`) cannot feed output ");
                push_node(out, *output);
                out.append(": ");
                out.append(reason.as_str());
            },
        }
    }

    /// The problem as a message.
    pub fn text(&self) -> (r: String)
        ensures
            r@ == graph_error_text(Seq::empty(), self@),
    {
        let mut out = String::new();
        self.push_text(&mut out);
        out
    }
}

/// Every problem that validation found.
#[derive(Debug, PartialEq)]
pub struct GraphErrors(pub Vec<GraphError>);

impl View for GraphErrors {
    type V = Seq<GraphErrorView>;

    open spec fn view(&self) -> Seq<GraphErrorView> {
        text::seq_of(self.0@)
    }
}

impl Clone for GraphErrors {
    fn clone(&self) -> (r: Self)
        ensures
            r@ == self@,
    {
        GraphErrors(clone_vec(&self.0))
    }
}

impl Default for GraphErrors {
    fn default() -> (r: Self)
        ensures
            r@ == Seq::<GraphErrorView>::empty(),
    {
        let r = GraphErrors(Vec::new());
        assert(r@ =~= Seq::<GraphErrorView>::empty());
        r
    }
}

/// The problems from the second on, each on a line of its own.
pub open spec fn listed_errors(out: Seq<char>, errors: Seq<GraphErrorView>, n: int) -> Seq<char>
    decreases n,
{
    if n <= 1 {
        out
    } else {
        graph_error_text(listed_errors(out, errors, n - 1) + "\n  - "@, errors[n - 1])
    }
}

/// Every problem as a message, appended to `out`.
pub open spec fn graph_errors_text(out: Seq<char>, errors: Seq<GraphErrorView>) -> Seq<char> {
    if errors.len() == 0 {
        out + "no errors"@
    } else if errors.len() == 1 {
        graph_error_text(out, errors[0])
    } else {
        listed_errors(
            graph_error_text(
                out + text::decimal(errors.len()) + " graph errors:\n  - "@,
                errors[0],
            ),
            errors,
            errors.len() as int,
        )
    }
}

impl GraphErrors {
    /// The first problem.
    pub fn first(&self) -> (r: Option<&GraphError>)
        ensures
            match r {
                Some(e) => self@.len() > 0 && e@ == self@[0],
                None => self@.len() == 0,
            },
    {
        if self.0.len() == 0 {
            None
        } else {
            Some(&self.0[0])
        }
    }

    /// The number of problems.
    pub fn len(&self) -> (r: usize)
        ensures
            r == self@.len(),
    {
        self.0.len()
    }

    /// Whether there are none.
    pub fn is_empty(&self) -> (r: bool)
        ensures
            r == (self@.len() == 0),
    {
        self.0.len() == 0
    }

    /// One problem on its own.
    pub fn one(error: GraphError) -> (r: Self)
        ensures
            r@ == seq![error@],
    {
        let mut v: Vec<GraphError> = Vec::new();
        v.push(error);
        assert(text::seq_of(v@) =~= seq![error@]);
        GraphErrors(v)
    }

    /// Append every problem as a message.
    pub fn push_text(&self, out: &mut String)
        ensures
            final(out)@ == graph_errors_text(old(out)@, self@),
    {
        let n: usize = self.0.len();
        if n == 0 {
            out.append("no errors");
        } else if n == 1 {
            self.0[0].push_text(out);
        } else {
            push_number(out, n as u64);
            out.append(" graph errors:\n  - ");
            self.0[0].push_text(out);
            let ghost head = out@;
            let mut i: usize = 1;
            while i < n
                invariant
                    1 <= i <= n == self@.len(),
                    n == self.0@.len(),
                    out@ == listed_errors(head, self@, i as int),
                decreases n - i,
            {
                out.append("\n  - ");
                self.0[i].push_text(out);
                i += 1;
            }
        }
    }

    /// Every problem as a message.
    pub fn text(&self) -> (r: String)
        ensures
            r@ == graph_errors_text(Seq::empty(), self@),
    {
        let mut out = String::new();
        self.push_text(&mut out);
        out
    }
}

/// What stopped source from being generated.
#[derive(Debug, PartialEq)]
pub enum CodegenError {
    /// The graph is not valid.
    Invalid(GraphErrors),
    /// The graph has no surface output.
    NoOutputNode,
    /// The graph has more than one surface output.
    MultipleOutputNodes(Vec<NodeId>),
    /// A kind of node has an expression that names an unknown input.
    BadTemplate {
        /// The kind.
        def: String,
        /// The unknown name.
        placeholder: String,
    },
    /// A kind of node has not one expression per output.
    OutputArityMismatch {
        /// The kind.
        def: String,
        /// The number of outputs.
        outputs: usize,
        /// The number of expressions.
        exprs: usize,
    },
    /// A value has no literal.
    UnrepresentableValue {
        /// Where it comes from.
        socket: SocketRef,
    },
    /// A node reads a parameter or resource the material does not declare.
    UndeclaredParam {
        /// The node.
        node: NodeId,
        /// The name it reads.
        name: String,
    },
    /// A node reads the application's block and the material declares none.
    NoUserBlock {
        /// The node.
        node: NodeId,
    },
    /// A node reads an attribute the material does not declare.
    UndeclaredAttribute {
        /// The node.
        node: NodeId,
        /// The attribute.
        name: String,
    },
}

/// What a [`CodegenError`] stands for.
#[verifier::ext_equal]
pub enum CodegenErrorView {
    /// The graph is not valid.
    Invalid(Seq<GraphErrorView>),
    /// The graph has no surface output.
    NoOutputNode,
    /// The graph has more than one surface output.
    MultipleOutputNodes(Seq<NodeId>),
    /// A kind of node has an expression that names an unknown input.
    BadTemplate {
        /// The kind.
        def: Seq<char>,
        /// The unknown name.
        placeholder: Seq<char>,
    },
    /// A kind of node has not one expression per output.
    OutputArityMismatch {
        /// The kind.
        def: Seq<char>,
        /// The number of outputs.
        outputs: usize,
        /// The number of expressions.
        exprs: usize,
    },
    /// A value has no literal.
    UnrepresentableValue {
        /// Where it comes from.
        socket: SocketRefView,
    },
    /// A node reads a parameter or resource the material does not declare.
    UndeclaredParam {
        /// The node.
        node: NodeId,
        /// The name it reads.
        name: Seq<char>,
    },
    /// A node reads the application's block and the material declares none.
    NoUserBlock {
        /// The node.
        node: NodeId,
    },
    /// A node reads an attribute the material does not declare.
    UndeclaredAttribute {
        /// The node.
        node: NodeId,
        /// The attribute.
        name: Seq<char>,
    },
}

impl View for CodegenError {
    type V = CodegenErrorView;

    open spec fn view(&self) -> CodegenErrorView {
        match *self {
            CodegenError::Invalid(x) => CodegenErrorView::Invalid(x@),
            CodegenError::NoOutputNode => CodegenErrorView::NoOutputNode,
            CodegenError::MultipleOutputNodes(x) => CodegenErrorView::MultipleOutputNodes(x@),
            CodegenError::BadTemplate { def, placeholder } => CodegenErrorView::BadTemplate {
                def: def@,
                placeholder: placeholder@,
            },
            CodegenError::OutputArityMismatch { def, outputs, exprs } => CodegenErrorView::OutputArityMismatch {
                def: def@,
                outputs: outputs,
                exprs: exprs,
            },
            CodegenError::UnrepresentableValue { socket } => CodegenErrorView::UnrepresentableValue {
                socket: socket@,
            },
            CodegenError::UndeclaredParam { node, name } => CodegenErrorView::UndeclaredParam {
                node: node,
                name: name@,
            },
            CodegenError::NoUserBlock { node } => CodegenErrorView::NoUserBlock {
                node: node,
            },
            CodegenError::UndeclaredAttribute { node, name } => CodegenErrorView::UndeclaredAttribute {
                node: node,
                name: name@,
            },
        }
    }
}

impl Clone for CodegenError {
    fn clone(&self) -> (r: Self)
        ensures
            r@ == self@,
    {
        match self {
            CodegenError::Invalid(x) => CodegenError::Invalid(x.clone()),
            CodegenError::NoOutputNode => CodegenError::NoOutputNode,
            CodegenError::MultipleOutputNodes(x) => CodegenError::MultipleOutputNodes(copy_vec(x)),
            CodegenError::BadTemplate { def, placeholder } => CodegenError::BadTemplate {
                def: def.clone(),
                placeholder: placeholder.clone(),
            },
            CodegenError::OutputArityMismatch { def, outputs, exprs } => CodegenError::OutputArityMismatch {
                def: def.clone(),
                outputs: *outputs,
                exprs: *exprs,
            },
            CodegenError::UnrepresentableValue { socket } => CodegenError::UnrepresentableValue {
                socket: socket.clone(),
            },
            CodegenError::UndeclaredParam { node, name } => CodegenError::UndeclaredParam {
                node: *node,
                name: name.clone(),
            },
            CodegenError::NoUserBlock { node } => CodegenError::NoUserBlock {
                node: *node,
            },
            CodegenError::UndeclaredAttribute { node, name } => CodegenError::UndeclaredAttribute {
                node: *node,
                name: name.clone(),
            },
        }
    }
}

/// An error as a message, appended to `out`.
pub open spec fn codegen_error_text(out: Seq<char>, e: CodegenErrorView) -> Seq<char> {
    match e {
        CodegenErrorView::Invalid(errors) => graph_errors_text(
            out + "graph is invalid: "@,
            errors,
        ),
        CodegenErrorView::NoOutputNode => out + "graph has no surface output node"@,
        CodegenErrorView::MultipleOutputNodes(nodes) => nodes_text(
            out + "graph has "@ + text::decimal(nodes.len()) + " surface output nodes (expected 1): "@,
            nodes,
            ", "@,
        ),
        CodegenErrorView::BadTemplate { def, placeholder } => out + "node definition `"@ + def
            + "` has an expression template referencing unknown socket `"@ + placeholder + "`"@,
        CodegenErrorView::OutputArityMismatch { def, outputs, exprs } => out
            + "node definition `"@ + def + "` declares "@ + text::decimal(outputs as nat)
            + " outputs but supplies "@ + text::decimal(exprs as nat) + " expressions"@,
        CodegenErrorView::UnrepresentableValue { socket } => ids::socket_text(
            out + "value for "@,
            socket,
        ) + " cannot be written as a WXSL literal"@,
        CodegenErrorView::UndeclaredParam { node, name } => ids::node_text(out + "node "@, node)
            + " reads `"@ + name + "`, which the material does not declare"@,
        CodegenErrorView::NoUserBlock { node } => ids::node_text(out + "node "@, node)
            + " reads the application's block, but the material declares none"@,
        CodegenErrorView::UndeclaredAttribute { node, name } => ids::node_text(out + "node "@, node)
            + " reads the attribute `"@ + name + "`, which the material does not declare"@,
    }
}

impl CodegenError {
    /// Append the error as a message.
    pub fn push_text(&self, out: &mut String)
        ensures
            final(out)@ == codegen_error_text(old(out)@, self@),
    {
        match self {
            CodegenError::Invalid(errors) => {
                out.append("graph is invalid: ");
                errors.push_text(out);
            },
            CodegenError::NoOutputNode => {
                out.append("graph has no surface output node");
            },
            CodegenError::MultipleOutputNodes(nodes) => {
                out.append("graph has ");
                push_number(out, nodes.len() as u64);
                out.append(" surface output nodes (expected 1): ");
                push_nodes(out, nodes, ", ");
            },
            CodegenError::BadTemplate { def, placeholder } => {
                out.append("node definition `");
                out.append(def.as_str());
                out.append("` has an expression template referencing unknown socket `");
                out.append(placeholder.as_str());
                out.append("`");
            },
            CodegenError::OutputArityMismatch { def, outputs, exprs } => {
                out.append("node definition `");
                out.append(def.as_str());
                out.append("` declares ");
                push_number(out, *outputs as u64);
                out.append(" outputs but supplies ");
                push_number(out, *exprs as u64);
                out.append(" expressions");
            },
            CodegenError::UnrepresentableValue { socket } => {
                out.append("value for ");
                push_socket(out, socket);
                out.append(" cannot be written as a WXSL literal");
            },
            CodegenError::UndeclaredParam { node, name } => {
                out.append("node ");
                push_node(out, *node);
                out.append(" reads `");
                out.append(name.as_str());
                out.append("`, which the material does not declare");
            },
            CodegenError::NoUserBlock { node } => {
                out.append("node ");
                push_node(out, *node);
                out.append(" reads the application's block, but the material declares none");
            },
            CodegenError::UndeclaredAttribute { node, name } => {
                out.append("node ");
                push_node(out, *node);
                out.append(" reads the attribute `");
                out.append(name.as_str());
                out.append("`, which the material does not declare");
            },
        }
    }

    /// The error as a message.
    pub fn text(&self) -> (r: String)
        ensures
            r@ == codegen_error_text(Seq::empty(), self@),
    {
        let mut out = String::new();
        self.push_text(&mut out);
        out
    }

    /// The problems of the graph, where they are the cause.
    pub fn source(&self) -> (r: Option<&GraphErrors>)
        ensures
            match r {
                Some(e) => self@ == CodegenErrorView::Invalid(e@),
                None => !(self@ is Invalid),
            },
    {
        match self {
            CodegenError::Invalid(e) => Some(e),
            _ => None,
        }
    }
}

} // verus!
