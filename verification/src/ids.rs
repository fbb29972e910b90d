//! The names of a graph's parts: its nodes, their sockets, and the edges
//! between them.

use vstd::prelude::*;

use crate::text;
use crate::text::{is_text_less, push_number, same_text};

verus! {

/// The id of a node within its graph.
#[derive(Clone, Copy, Debug, PartialEq, Eq, PartialOrd, Ord, Hash, Structural)]
pub struct NodeId(pub u32);

impl View for NodeId {
    type V = NodeId;

    open spec fn view(&self) -> NodeId {
        *self
    }
}

/// A node as messages show it, appended to `out`.
pub open spec fn node_text(out: Seq<char>, id: NodeId) -> Seq<char> {
    out + "#"@ + text::decimal(id.0 as nat)
}

/// Append a node as messages show it.
pub fn push_node(out: &mut String, id: NodeId)
    ensures
        final(out)@ == node_text(old(out)@, id),
{
    out.append("#");
    push_number(out, id.0 as u64);
}

/// A socket of a node.
#[derive(Debug, PartialEq)]
pub struct SocketRef {
    /// The node.
    pub node: NodeId,
    /// The socket's name.
    pub socket: String,
}

/// What a [`SocketRef`] stands for.
#[verifier::ext_equal]
pub struct SocketRefView {
    /// The node.
    pub node: NodeId,
    /// The socket's name.
    pub socket: Seq<char>,
}

impl View for SocketRef {
    type V = SocketRefView;

    open spec fn view(&self) -> SocketRefView {
        SocketRefView {
            node: self.node,
            socket: self.socket@,
        }
    }
}

impl Clone for SocketRef {
    fn clone(&self) -> (r: Self)
        ensures
            r@ == self@,
    {
        SocketRef {
            node: self.node,
            socket: self.socket.clone(),
        }
    }
}

/// A socket as messages show it, appended to `out`.
pub open spec fn socket_text(out: Seq<char>, s: SocketRefView) -> Seq<char> {
    node_text(out, s.node) + "."@ + s.socket
}

/// Append a socket as messages show it.
pub fn push_socket(out: &mut String, s: &SocketRef)
    ensures
        final(out)@ == socket_text(old(out)@, s@),
{
    push_node(out, s.node);
    out.append(".");
    out.append(s.socket.as_str());
}

/// The order of sockets: by node, then by name.
pub open spec fn socket_less(a: SocketRefView, b: SocketRefView) -> bool {
    a.node.0 < b.node.0 || (a.node == b.node && text::text_less(a.socket, b.socket))
}

impl SocketRef {
    /// A socket of a node.
    pub fn new(node: NodeId, socket: &str) -> (r: Self)
        ensures
            r@ == (SocketRefView { node, socket: socket@ }),
    {
        SocketRef { node, socket: socket.to_owned() }
    }

    /// Whether two references name the same socket.
    pub fn same(&self, other: &SocketRef) -> (r: bool)
        ensures
            r == (self@ == other@),
    {
        self.node.0 == other.node.0 && same_text(self.socket.as_str(), other.socket.as_str())
    }

    /// Whether this is the socket of a name on a node.
    pub fn is(&self, node: NodeId, socket: &str) -> (r: bool)
        ensures
            r == (self@ == (SocketRefView { node, socket: socket@ })),
    {
        self.node.0 == node.0 && same_text(self.socket.as_str(), socket)
    }

    /// Whether this socket comes before another.
    pub fn comes_before(&self, other: &SocketRef) -> (r: bool)
        ensures
            r == socket_less(self@, other@),
    {
        self.node.0 < other.node.0 || (self.node.0 == other.node.0 && is_text_less(
            self.socket.as_str(),
            other.socket.as_str(),
        ))
    }

    /// The socket as messages show it.
    pub fn text(&self) -> (r: String)
        ensures
            r@ == socket_text(Seq::empty(), self@),
    {
        let mut out = String::new();
        push_socket(&mut out, self);
        out
    }
}

/// A value flowing from an output to an input.
#[derive(Debug, PartialEq)]
pub struct Edge {
    /// The output.
    pub from: SocketRef,
    /// The input.
    pub to: SocketRef,
}

/// What a [`Edge`] stands for.
#[verifier::ext_equal]
pub struct EdgeView {
    /// The output.
    pub from: SocketRefView,
    /// The input.
    pub to: SocketRefView,
}

impl View for Edge {
    type V = EdgeView;

    open spec fn view(&self) -> EdgeView {
        EdgeView {
            from: self.from@,
            to: self.to@,
        }
    }
}

impl Clone for Edge {
    fn clone(&self) -> (r: Self)
        ensures
            r@ == self@,
    {
        Edge {
            from: self.from.clone(),
            to: self.to.clone(),
        }
    }
}

} // verus!
