//! What the statements of a module compute.

use vstd::prelude::*;

use crate::emit;
use crate::emit::EmittedView;
use crate::error;
use crate::expr;
use crate::expr::ContextView;
use crate::graph;
use crate::graph::ShaderStage;
use crate::ids::{NodeId, SocketRefView};
use crate::lists;
use crate::node::{FunctionReturnView, NodeBodyView, SocketView, Value, ValueType, WxslFunctionView};
use crate::partition;
use crate::resources;
use crate::resources::BufferLayoutView;
use crate::stages::CutView;
use crate::text;
use crate::topology;
use crate::traversal;
use crate::value;
use crate::wxsl;

verus! {

// ---------------------------------------------------------------------------
// What a name stands for

/// Whether a node holds a usable name in a setting.
pub open spec fn called(c: ContextView, id: NodeId, setting: Seq<char>, name: Seq<char>) -> bool {
    let declared = c.g.kind(c.kinds, id).settings;
    let own = c.g.nodes[id].settings;
    wxsl::is_ident(name) && exists|k: int|
        0 <= k < declared.len() && (#[trigger] declared[k]).name == setting && name
            == text::trimmed(
            if own.contains_key(setting) {
                own[setting]
            } else {
                declared[k].default
            },
        )
}

/// Whether a text reads a field of a variable that holds a buffer. A flag is
/// held as a number.
pub open spec fn reads_field(
    l: BufferLayoutView,
    var: Seq<char>,
    name: Seq<char>,
    t: Seq<char>,
) -> bool {
    exists|i: int|
        0 <= i < l.fields.len() && (#[trigger] l.fields[i]).name == name && t == (if l.fields[i].ty
            == ValueType::Bool {
            "("@ + var + "."@ + name + " != 0u)"@
        } else {
            var + "."@ + name
        })
}

/// Whether a text reads an attribute: what is interpolated by its name, what
/// an instance carries off the row of that instance.
pub open spec fn reads_attribute(c: ContextView, name: Seq<char>, t: Seq<char>) -> bool {
    let g = c.interface.geometry;
    let travels = (exists|i: int| 0 <= i < g.vertex.len() && (#[trigger] g.vertex[i]).name == name)
        || (exists|i: int| 0 <= i < g.computed.len() && (#[trigger] g.computed[i]).name == name);
    if travels {
        t == "attrs"@ + "."@ + name
    } else {
        reads_field(
            g.instance,
            "wxsl_instance_attributes"@ + "["@ + "attrs"@ + "."@ + "wxsl_instance"@ + "]"@,
            name,
            t,
        )
    }
}

/// Whether a text is what the output of a node reads as in a function of a
/// stage. What crossed from the vertex stage is an interpolant there; any
/// other value has the name of its node, or is read where it is kept.
pub open spec fn reads_as(
    c: ContextView,
    cuts: Seq<CutView>,
    from: SocketRefView,
    t: Seq<char>,
) -> bool {
    let d = c.g.kind(c.kinds, from.node);
    let own = "n"@ + text::decimal(from.node.0 as nat) + "_"@;
    if exists|i: int| 0 <= i < cuts.len() && (#[trigger] cuts[i]).socket.node == from.node {
        exists|i: int|
            0 <= i < cuts.len() && (#[trigger] cuts[i]).socket == from && t == "attrs"@ + "."@
                + cuts[i].name
    } else {
        c.g.known(c.kinds, from.node) && match d.body {
            NodeBodyView::Expr(_) => t == own + from.socket,
            NodeBodyView::Call(f) => match f.ret {
                FunctionReturnView::Value(s) => from.socket == s.name && t == own + "call"@,
                FunctionReturnView::Struct { .. } => t == own + "call"@ + "."@ + from.socket,
            },
            NodeBodyView::ContextRead(field) | NodeBodyView::VertexContextRead(field) => t == (
            match c.stage {
                ShaderStage::Vertex => "vtx"@,
                ShaderStage::Fragment => "ctx"@,
            }) + "."@ + field,
            NodeBodyView::Param => exists|name: Seq<char>| #[trigger]
                called(c, from.node, "name"@, name) && reads_field(
                    c.interface.params,
                    "material"@,
                    name,
                    t,
                ),
            NodeBodyView::Resource => called(c, from.node, "name"@, t),
            NodeBodyView::UserRead => c.interface.user is Some && exists|name: Seq<char>|
             #[trigger]
                called(c, from.node, "field"@, name) && reads_field(
                    c.interface.user->0.layout,
                    c.interface.user->0.name,
                    name,
                    t,
                ),
            NodeBodyView::AttributeRead => exists|name: Seq<char>| #[trigger]
                called(c, from.node, "name"@, name) && reads_attribute(c, name, t),
            _ => false,
        }
    }
}

/// Whether a text is what an input of a node reads: the output at the other
/// end of its edge, else the value that the node pins, else the one that the
/// input has for its type.
pub open spec fn input_reads(
    c: ContextView,
    cuts: Seq<CutView>,
    id: NodeId,
    name: Seq<char>,
    t: Seq<char>,
) -> bool {
    let at = SocketRefView { node: id, socket: name };
    if exists|i: int| 0 <= i < c.g.edges.len() && (#[trigger] c.g.edges[i]).to == at {
        exists|i: int|
            0 <= i < c.g.edges.len() && (#[trigger] c.g.edges[i]).to == at && reads_as(
                c,
                cuts,
                c.g.edges[i].from,
                t,
            )
    } else {
        exists|v: Value| value::value_literal(v) == Some(t) && #[trigger] takes_value(c, id, name, v)
    }
}

/// The value that an input has for its type.
pub open spec fn starts_with(c: ContextView, id: NodeId, s: SocketView) -> Option<Value> {
    match (c.g.effective_type(id, s), s.default, s.splat_default) {
        (Some(_), Some(own), _) => Some(own),
        (Some(ty), None, Some(each)) => value::splat_of(ty, each),
        _ => None,
    }
}

/// Whether an input that no edge feeds takes a value.
pub open spec fn takes_value(c: ContextView, id: NodeId, name: Seq<char>, v: Value) -> bool {
    let pinned = c.g.nodes[id].params;
    let inputs = c.g.kind(c.kinds, id).inputs;
    if pinned.contains_key(name) {
        pinned[name] == v
    } else {
        exists|k: int|
            0 <= k < inputs.len() && (#[trigger] inputs[k]).name == name && starts_with(
                c,
                id,
                inputs[k],
            ) == Some(v)
    }
}

/// Every name that is bound stands for what its output reads as.
pub open spec fn well_bound(
    c: ContextView,
    cuts: Seq<CutView>,
    bindings: Map<SocketRefView, Seq<char>>,
) -> bool {
    forall|from: SocketRefView| #[trigger]
        bindings.contains_key(from) ==> reads_as(c, cuts, from, bindings[from])
}

proof fn lemma_input_reads(
    c: ContextView,
    cuts: Seq<CutView>,
    bindings: Map<SocketRefView, Seq<char>>,
    id: NodeId,
    name: Seq<char>,
    t: Seq<char>,
)
    requires
        well_bound(c, cuts, bindings),
        expr::input_text(c, bindings, id, name) == Ok::<
            Option<Seq<char>>,
            crate::error::CodegenErrorView,
        >(Some(t)),
    ensures
        input_reads(c, cuts, id, name, t),
{
    let at = SocketRefView { node: id, socket: name };
    let p = graph::edge_to(at);
    lists::lemma_first_where(c.g.edges, p);
    match c.g.edge_into(at) {
        Some(e) => {
            let i = choose|i: int| 0 <= i < c.g.edges.len() && c.g.edges[i] == e;
            assert(c.g.edges[i].to == at);
            assert(bindings.contains_key(e.from));
        },
        None => {
            assert forall|i: int| 0 <= i < c.g.edges.len() implies (#[trigger] c.g.edges[i]).to
                != at by {
                assert(!p(c.g.edges[i]));
            }
            let d = c.g.kind(c.kinds, id);
            lists::lemma_first_where(d.inputs, crate::node::socket_named(name));
            let s = d.input(name)->0;
            let k = choose|k: int| 0 <= k < d.inputs.len() && d.inputs[k] == s;
            assert(crate::node::socket_named(name)(s));
            assert(d.inputs[k].name == name);
            let v = expr::unfed_value(c.g, id, s)->0;
            assert(takes_value(c, id, name, v));
        },
    }
}


// ---------------------------------------------------------------------------
// Templates

/// How many round brackets stay open.
pub open spec fn depth(s: Seq<char>) -> int
    decreases s.len(),
{
    if s.len() == 0 {
        0
    } else if s.last() == '(' {
        depth(s.drop_last()) + 1
    } else if s.last() == ')' {
        depth(s.drop_last()) - 1
    } else {
        depth(s.drop_last())
    }
}

/// Whether an expression can be an operand as it is: it is a name, a number or
/// a field, or a call whose bracket stays open up to its last character.
pub open spec fn stands_alone(s: Seq<char>) -> bool {
    ||| s.len() > 0 && forall|i: int|
        0 <= i < s.len() ==> wxsl::name_char(#[trigger] s[i]) || s[i] == '.'
    ||| exists|open: int| #[trigger] calls_from(s, open)
}

/// Whether an expression is a call whose bracket is at a position.
pub open spec fn calls_from(s: Seq<char>, open: int) -> bool {
    &&& 0 < open < s.len()
    &&& s[open] == '('
    &&& forall|i: int| 0 <= i < open ==> wxsl::name_char(#[trigger] s[i])
    &&& forall|i: int| open < i < s.len() ==> depth(#[trigger] s.take(i)) > 0
    &&& depth(s) == 0
}

/// Whether a text is an expression as an operand.
pub open spec fn operand(s: Seq<char>, t: Seq<char>) -> bool {
    t == (if stands_alone(s) {
        s
    } else {
        "("@ + s + ")"@
    })
}

proof fn lemma_depth(s: Seq<char>, open: int, i: int)
    requires
        0 <= open <= i <= s.len(),
        forall|k: int| 0 <= k < open ==> (#[trigger] s[k]) != '(' && s[k] != ')',
    ensures
        depth(s.take(i)) == expr::nesting(s, open, i),
    decreases i,
{
    if i > 0 {
        assert(s.take(i).drop_last() =~= s.take(i - 1));
        if i > open {
            lemma_depth(s, open, i - 1);
        } else {
            lemma_depth(s, open - 1, i - 1);
            assert(expr::nesting(s, open - 1, open - 1) == 0);
        }
    }
}

proof fn lemma_operand(s: Seq<char>)
    ensures
        operand(s, expr::atom(s)),
{
    let open = text::next_char(s, '(', 0);
    text::lemma_next_char(s, '(', 0);
    if expr::is_call(s) {
        assert forall|i: int| open < i < s.len() implies depth(#[trigger] s.take(i)) > 0 by {
            lemma_depth(s, open, i);
            assert(expr::nesting(s, open, i) > 0);
        }
        lemma_depth(s, open, s.len() as int);
        assert(s.take(s.len() as int) =~= s);
        assert(calls_from(s, open));
    }
    if exists|o: int| #[trigger] calls_from(s, o) {
        let o = choose|o: int| #[trigger] calls_from(s, o);
        if open < o {
            assert(wxsl::name_char(s[open]));
        }
        assert(open == o);
        assert forall|i: int| open < i < s.len() implies #[trigger] expr::nesting(s, open, i)
            > 0 by {
            lemma_depth(s, open, i);
            assert(depth(s.take(i)) > 0);
        }
        lemma_depth(s, open, s.len() as int);
        assert(s.take(s.len() as int) =~= s);
        assert(expr::is_call(s));
    }
}

/// A piece of a template.
pub enum Piece {
    /// A character that stands for itself.
    Text(char),
    /// `{{`
    Open,
    /// `}}`
    Close,
    /// `{name}`
    Input(Seq<char>),
    /// `{$T}`
    Kind(Seq<char>),
}

/// How a piece is spelled.
pub open spec fn spelled(p: Piece) -> Seq<char> {
    match p {
        Piece::Text(x) => seq![x],
        Piece::Open => seq!['{', '{'],
        Piece::Close => seq!['}', '}'],
        Piece::Input(name) => seq!['{'] + name + seq!['}'],
        Piece::Kind(name) => seq!['{', '$'] + name + seq!['}'],
    }
}

/// Whether a piece is one: no brace stands for itself where it opens, and no
/// name runs past its brace.
pub open spec fn is_piece(p: Piece) -> bool {
    match p {
        Piece::Text(x) => x != '{',
        Piece::Input(name) => !name.contains('}') && (name.len() > 0 ==> name[0] != '{' && name[0]
            != '$'),
        Piece::Kind(name) => !name.contains('}'),
        _ => true,
    }
}

/// Whether a text is what a piece of a template becomes.
pub open spec fn becomes(
    c: ContextView,
    cuts: Seq<CutView>,
    id: NodeId,
    p: Piece,
    t: Seq<char>,
) -> bool {
    match p {
        Piece::Text(x) => t == seq![x],
        Piece::Open => t == seq!['{'],
        Piece::Close => t == seq!['}'],
        Piece::Input(name) => exists|x: Seq<char>| #[trigger]
            input_reads(c, cuts, id, name, x) && operand(x, t),
        Piece::Kind(name) => match graph::generic_of(c.g, id, name) {
            Some(ty) => t == ty.wxsl_type()@,
            None => false,
        },
    }
}

/// The template that pieces spell.
pub open spec fn template_of(ps: Seq<(Piece, Seq<char>)>) -> Seq<char> {
    text::flat(Seq::new(ps.len(), |k: int| spelled(ps[k].0)))
}

/// The text that pieces become.
pub open spec fn filled_text(ps: Seq<(Piece, Seq<char>)>) -> Seq<char> {
    text::flat(Seq::new(ps.len(), |k: int| ps[k].1))
}

/// Whether these are the pieces of a template: a pair of closing braces is
/// always one.
pub open spec fn are_pieces(ps: Seq<(Piece, Seq<char>)>) -> bool {
    &&& forall|k: int| 0 <= k < ps.len() ==> is_piece((#[trigger] ps[k]).0)
    &&& forall|k: int, l: int|
        0 <= k && l == k + 1 && l < ps.len() && (#[trigger] ps[k]).0 == Piece::Text('}') ==> (
        #[trigger] ps[l]).0 != Piece::Text('}') && ps[l].0 != Piece::Close
}

/// Whether a template was filled in: piece by piece, each input as what it
/// reads and each type parameter as its type.
pub open spec fn fills(
    c: ContextView,
    cuts: Seq<CutView>,
    id: NodeId,
    template: Seq<char>,
    t: Seq<char>,
) -> bool {
    exists|ps: Seq<(Piece, Seq<char>)>| #[trigger]
        are_pieces(ps) && template_of(ps) == template && filled_text(ps) == t && forall|k: int|
            0 <= k < ps.len() ==> becomes(c, cuts, id, (#[trigger] ps[k]).0, ps[k].1)
}

/// Pieces behind another.
spec fn with_first(p: (Piece, Seq<char>), rest: Seq<(Piece, Seq<char>)>) -> Seq<
    (Piece, Seq<char>),
> {
    seq![p].add(rest)
}

proof fn lemma_piece_first(p: (Piece, Seq<char>), rest: Seq<(Piece, Seq<char>)>)
    ensures
        template_of(with_first(p, rest)) == spelled(p.0) + template_of(rest),
        filled_text(with_first(p, rest)) == p.1 + filled_text(rest),
{
    let all = with_first(p, rest);
    let a = Seq::new(all.len(), |k: int| spelled(all[k].0));
    let b = Seq::new(rest.len(), |k: int| spelled(rest[k].0));
    assert(a =~= seq![spelled(p.0)] + b);
    text::lemma_flat_add(seq![spelled(p.0)], b);
    lemma_flat_one(spelled(p.0));
    let x = Seq::new(all.len(), |k: int| all[k].1);
    let y = Seq::new(rest.len(), |k: int| rest[k].1);
    assert(x =~= seq![p.1] + y);
    text::lemma_flat_add(seq![p.1], y);
    lemma_flat_one(p.1);
}

proof fn lemma_pieces_add(a: Seq<(Piece, Seq<char>)>, b: Seq<(Piece, Seq<char>)>)
    ensures
        template_of(a + b) == template_of(a) + template_of(b),
        filled_text(a + b) == filled_text(a) + filled_text(b),
{
    let all = a + b;
    let x = Seq::new(a.len(), |k: int| spelled(a[k].0));
    let y = Seq::new(b.len(), |k: int| spelled(b[k].0));
    assert(Seq::new(all.len(), |k: int| spelled(all[k].0)) =~= x + y);
    text::lemma_flat_add(x, y);
    let x = Seq::new(a.len(), |k: int| a[k].1);
    let y = Seq::new(b.len(), |k: int| b[k].1);
    assert(Seq::new(all.len(), |k: int| all[k].1) =~= x + y);
    text::lemma_flat_add(x, y);
}

proof fn lemma_flat_one(s: Seq<char>)
    ensures
        text::flat(seq![s]) == s,
{
    assert(seq![s].drop_last() =~= Seq::<Seq<char>>::empty());
    assert(text::flat(seq![s]) == text::flat(Seq::<Seq<char>>::empty()) + s);
    assert(Seq::<char>::empty() + s =~= s);
}

proof fn lemma_pieces_front(p: (Piece, Seq<char>), rest: Seq<(Piece, Seq<char>)>)
    requires
        are_pieces(rest),
        is_piece(p.0),
        p.0 == Piece::Text('}') && rest.len() > 0 ==> rest[0].0 != Piece::Text('}') && rest[0].0
            != Piece::Close,
    ensures
        are_pieces(with_first(p, rest)),
        (with_first(p, rest)).len() == rest.len() + 1,
        (with_first(p, rest))[0] == p,
        forall|k: int|
            0 < k < rest.len() + 1 ==> #[trigger] (with_first(p, rest))[k] == rest[k - 1],
{
    let ps = with_first(p, rest);
    assert(ps.len() == rest.len() + 1);
    assert forall|k: int| 0 < k < ps.len() implies #[trigger] ps[k] == rest[k - 1] by {}
    assert forall|k: int, l: int|
        0 <= k && l == k + 1 && l < ps.len() && (#[trigger] ps[k]).0 == Piece::Text('}') implies (
    #[trigger] ps[l]).0 != Piece::Text('}') && ps[l].0 != Piece::Close by {
        assert(ps[l] == rest[k]);
        if k > 0 {
            assert(ps[k] == rest[k - 1]);
        }
    }
}

proof fn lemma_unescaped(out: Seq<char>, s: Seq<char>, i: int, to: int) -> (ps: Seq<
    (Piece, Seq<char>),
>)
    requires
        0 <= i <= to <= s.len(),
        forall|k: int| i <= k < to ==> s[k] != '{',
    ensures
        are_pieces(ps),
        forall|k: int| 0 <= k < ps.len() ==> stands_for_itself(#[trigger] ps[k]),
        ps.len() > 0 ==> (ps[0].0 == Piece::Close ==> s[i] == '}') && (ps[0].0 == Piece::Text(
            '}',
        ) ==> s[i] == '}'),
        template_of(ps) == s.subrange(i, to),
        expr::unescaped(out, s, i, to) == out + filled_text(ps),
    decreases to - i,
{
    if i >= to {
        let all = Seq::<(Piece, Seq<char>)>::empty();
        assert(Seq::new(all.len(), |k: int| spelled(all[k].0)) =~= Seq::<Seq<char>>::empty());
        assert(Seq::new(all.len(), |k: int| all[k].1) =~= Seq::<Seq<char>>::empty());
        assert(s.subrange(i, to) =~= Seq::<char>::empty());
        assert(out + Seq::<char>::empty() =~= out);
        assert(are_pieces(all));
        assert(template_of(all) == s.subrange(i, to));
        assert(expr::unescaped(out, s, i, to) == out + filled_text(all));
        assert(all.len() == 0);
        all
    } else {
        let twice = i + 1 < to && s[i] == '}' && s[i + 1] == '}';
        let n: int = if twice {
            2
        } else {
            1
        };
        let piece = if twice {
            Piece::Close
        } else {
            Piece::Text(s[i])
        };
        let x = if twice {
            '}'
        } else {
            s[i]
        };
        let p = (piece, seq![x]);
        let rest = lemma_unescaped(out.push(x), s, i + n, to);
        let all = with_first(p, rest);
        lemma_piece_first(p, rest);
        assert(s.subrange(i, to) =~= s.subrange(i, i + n) + s.subrange(i + n, to));
        assert(s.subrange(i, i + n) =~= spelled(piece));
        lemma_behind(out, x, filled_text(rest));
        lemma_pieces_front(p, rest);
        assert(are_pieces(all));
        assert(template_of(all) == s.subrange(i, to));
        assert forall|k: int| 0 <= k < all.len() implies stands_for_itself(#[trigger] all[k]) by {
            if k > 0 {
                assert(all[k] == rest[k - 1]);
            }
        }
        assert(all[0] == p);
        assert(expr::unescaped(out, s, i, to) == out + filled_text(all));
        all
    }
}

/// Whether a piece holds no name, and becomes what it spells.
spec fn stands_for_itself(p: (Piece, Seq<char>)) -> bool {
    match p.0 {
        Piece::Text(x) => p.1 == seq![x],
        Piece::Close => p.1 == seq!['}'],
        _ => false,
    }
}

proof fn lemma_behind(out: Seq<char>, x: char, rest: Seq<char>)
    ensures
        out.push(x) + rest == out + (seq![x] + rest),
{
    assert(out.push(x) + rest =~= out + (seq![x] + rest));
}

proof fn lemma_filled(
    c: ContextView,
    cuts: Seq<CutView>,
    bindings: Map<SocketRefView, Seq<char>>,
    id: NodeId,
    def: Seq<char>,
    s: Seq<char>,
    i: int,
    out: Seq<char>,
) -> (ps: Seq<(Piece, Seq<char>)>)
    requires
        0 <= i <= s.len(),
        well_bound(c, cuts, bindings),
        expr::expanded(c, bindings, id, def, s, i, out) is Ok,
    ensures
        are_pieces(ps),
        template_of(ps) == s.skip(i),
        expr::expanded(c, bindings, id, def, s, i, out)->Ok_0 == out + filled_text(ps),
        forall|k: int|
            0 <= k < ps.len() ==> becomes(c, cuts, id, (#[trigger] ps[k]).0, ps[k].1),
    decreases s.len() - i,
{
    let open = text::next_char(s, '{', i);
    text::lemma_next_char(s, '{', i);
    let head = lemma_unescaped(out, s, i, open);
    let before = expr::unescaped(out, s, i, open);
    if open >= s.len() {
        assert(s.skip(i) =~= s.subrange(i, open));
        head
    } else {
        let close = text::next_char(s, '}', open + 1);
        text::lemma_next_char(s, '}', open + 1);
        let name = s.subrange(open + 1, close);
        let (p, after) = if open + 1 < s.len() && s[open + 1] == '{' {
            ((Piece::Open, seq!['{']), open + 2)
        } else if name.len() > 0 && name[0] == '$' {
            (
                (
                    Piece::Kind(name.skip(1)),
                    graph::generic_of(c.g, id, name.skip(1))->0.wxsl_type()@,
                ),
                close + 1,
            )
        } else {
            (
                (
                    Piece::Input(name),
                    expr::atom(expr::input_text(c, bindings, id, name)->Ok_0->0),
                ),
                close + 1,
            )
        };
        assert(before.push('{') =~= before + seq!['{']);
        assert(expr::expanded(c, bindings, id, def, s, i, out) == expr::expanded(
            c,
            bindings,
            id,
            def,
            s,
            after,
            before + p.1,
        ));
        let rest = lemma_filled(c, cuts, bindings, id, def, s, after, before + p.1);
        let tail = with_first(p, rest);
        let ps = head + tail;
        lemma_piece_first(p, rest);
        lemma_pieces_add(head, tail);
        assert(name.contains('}') ==> false) by {
            if name.contains('}') {
                let k = choose|k: int| 0 <= k < name.len() && name[k] == '}';
                assert(s[open + 1 + k] == '}');
            }
        }
        match p.0 {
            Piece::Kind(n) => {
                assert(name =~= seq!['$'] + n);
                if n.contains('}') {
                    let k = choose|k: int| 0 <= k < n.len() && n[k] == '}';
                    assert(name[k + 1] == '}');
                }
                assert(s.subrange(open, after) =~= spelled(p.0));
            },
            Piece::Input(n) => {
                let x = expr::input_text(c, bindings, id, name)->Ok_0->0;
                lemma_input_reads(c, cuts, bindings, id, name, x);
                lemma_operand(x);
                if n.len() > 0 {
                    assert(n[0] == s[open + 1]);
                }
                assert(s.subrange(open, after) =~= spelled(p.0));
            },
            _ => {
                assert(s.subrange(open, after) =~= spelled(p.0));
            },
        }
        assert(s.skip(i) =~= s.subrange(i, open) + (s.subrange(open, after) + s.skip(after)));
        assert(out + filled_text(head) + p.1 + filled_text(rest) =~= out + (filled_text(head) + (p.1 + filled_text(
            rest,
        ))));
        assert forall|k: int| 0 <= k < ps.len() implies is_piece((#[trigger] ps[k]).0) && becomes(
            c,
            cuts,
            id,
            ps[k].0,
            ps[k].1,
        ) by {
            if k < head.len() {
                assert(ps[k] == head[k]);
            } else if k > head.len() {
                assert(ps[k] == rest[k - head.len() - 1]);
            } else {
                assert(ps[k] == p);
            }
        }
        assert forall|k: int, l: int|
            0 <= k && l == k + 1 && l < ps.len() && (#[trigger] ps[k]).0 == Piece::Text(
                '}',
            ) implies (#[trigger] ps[l]).0 != Piece::Text('}') && ps[l].0 != Piece::Close by {
            if k < head.len() {
                assert(ps[k] == head[k]);
                if l < head.len() {
                    assert(ps[l] == head[l]);
                } else {
                    assert(ps[l] == p);
                }
            } else if k > head.len() {
                assert(ps[k] == rest[k - head.len() - 1]);
                assert(ps[l] == rest[l - head.len() - 1]);
            } else {
                assert(ps[k] == p);
            }
        }
        ps
    }
}


// ---------------------------------------------------------------------------
// Statements

/// The type of a socket of a node in source.
pub open spec fn typed(c: ContextView, id: NodeId, s: SocketView) -> Seq<char> {
    match c.g.effective_type(id, s) {
        Some(ty) => ty.wxsl_type()@,
        None => s.ty.wxsl_type()@,
    }
}

/// One statement.
pub open spec fn statement(name: Seq<char>, ty: Seq<char>, e: Seq<char>) -> Seq<char> {
    "    let "@ + name + ": "@ + ty + " = "@ + e + ";\n"@
}

/// Whether a text computes one output by its template: a statement where
/// something reads the output, and nothing where nothing does.
pub open spec fn computes_output(
    c: ContextView,
    cuts: Seq<CutView>,
    id: NodeId,
    s: SocketView,
    template: Seq<char>,
    t: Seq<char>,
) -> bool {
    if exists|i: int|
        0 <= i < c.g.edges.len() && (#[trigger] c.g.edges[i]).from == (SocketRefView {
            node: id,
            socket: s.name,
        }) {
        exists|e: Seq<char>| #[trigger]
            fills(c, cuts, id, template, e) && t == statement(
                "n"@ + text::decimal(id.0 as nat) + "_"@ + s.name,
                typed(c, id, s),
                e,
            )
    } else {
        t == Seq::<char>::empty()
    }
}

/// Whether texts are what the parameters of a function read: one for each
/// parameter, in the order of the parameters, each what the input of that
/// name reads.
pub open spec fn passes(
    c: ContextView,
    cuts: Seq<CutView>,
    id: NodeId,
    params: Seq<SocketView>,
    args: Seq<Seq<char>>,
) -> bool {
    &&& args.len() == params.len()
    &&& forall|i: int|
        0 <= i < params.len() ==> input_reads(c, cuts, id, params[i].name, #[trigger] args[i])
}

/// The type arguments of a call: the type of each type parameter, in order.
pub open spec fn passes_types(c: ContextView, id: NodeId, types: Seq<Seq<char>>) -> bool {
    let generics = c.g.kind(c.kinds, id).generics;
    &&& types.len() == generics.len()
    &&& forall|i: int|
        0 <= i < generics.len() ==> resolved_to(c, id, generics[i].name, #[trigger] types[i])
}

/// Whether a text is the type that a type parameter of a node resolved to.
pub open spec fn resolved_to(c: ContextView, id: NodeId, param: Seq<char>, t: Seq<char>) -> bool {
    match graph::generic_of(c.g, id, param) {
        Some(ty) => t == ty.wxsl_type()@,
        None => false,
    }
}

/// Whether a text computes a node by a call: one statement, whatever it
/// returns.
pub open spec fn computes_call(
    c: ContextView,
    cuts: Seq<CutView>,
    id: NodeId,
    f: WxslFunctionView,
    t: Seq<char>,
) -> bool {
    exists|args: Seq<Seq<char>>, types: Seq<Seq<char>>| #[trigger]
        passes(c, cuts, id, f.params, args) && #[trigger] passes_types(c, id, types) && t
            == statement(
            "n"@ + text::decimal(id.0 as nat) + "_"@ + "call"@,
            match f.ret {
                FunctionReturnView::Value(s) => typed(c, id, s),
                FunctionReturnView::Struct { name, .. } => name,
            },
            f.name + (if types.len() == 0 {
                Seq::empty()
            } else {
                "<"@ + text::joined(types) + ">"@
            }) + "("@ + text::joined(args) + ")"@,
        )
}

/// Whether a text is what a node adds to a function: a statement for each
/// output that an expression computes, one for a call, and none for what only
/// reads something or ends a graph.
pub open spec fn writes(c: ContextView, cuts: Seq<CutView>, id: NodeId, t: Seq<char>) -> bool {
    let d = c.g.kind(c.kinds, id);
    c.g.known(c.kinds, id) && match d.body {
        NodeBodyView::Expr(exprs) => exists|lines: Seq<Seq<char>>|
            #![trigger text::flat(lines)]
            t == text::flat(lines) && lines.len() == d.outputs.len() == exprs.len() && forall|k: int|
                0 <= k < lines.len() ==> computes_output(
                    c,
                    cuts,
                    id,
                    d.outputs[k],
                    exprs[k],
                    #[trigger] lines[k],
                ),
        NodeBodyView::Call(f) => computes_call(c, cuts, id, f, t),
        _ => t == Seq::<char>::empty(),
    }
}

proof fn lemma_statement(body: Seq<char>, name: Seq<char>, ty: Seq<char>, e: Seq<char>)
    ensures
        emit::let_line(body, name, ty, e) == body + statement(name, ty, e),
{
    let a = "    let "@;
    assert(emit::let_line(body, name, ty, e) =~= body + statement(name, ty, e));
}

proof fn lemma_joined(out: Seq<char>, names: Seq<Seq<char>>)
    ensures
        error::names_text(out, names) == out + text::joined(names),
    decreases names.len(),
{
    if names.len() == 0 {
        assert(out + text::joined(names) =~= out);
    } else {
        let t = names.drop_last();
        lemma_joined(out, t);
        assert(names =~= t.push(names.last()));
        if t.len() > 0 {
            text::lemma_joined_push(t, names.last());
            assert(out + text::joined(t) + ", "@ + names.last() =~= out + (text::joined(t) + ", "@
                + names.last()));
        } else {
            assert(out + text::joined(t) =~= out);
            assert(names[0] == names.last());
        }
    }
}

proof fn lemma_arguments(
    c: ContextView,
    cuts: Seq<CutView>,
    bindings: Map<SocketRefView, Seq<char>>,
    id: NodeId,
    params: Seq<SocketView>,
    n: int,
)
    requires
        0 <= n <= params.len(),
        well_bound(c, cuts, bindings),
        emit::arguments(c, bindings, id, params, n) is Ok,
    ensures
        ({
            let args = emit::arguments(c, bindings, id, params, n)->Ok_0;
            &&& args.len() == n
            &&& forall|i: int|
                0 <= i < n ==> input_reads(c, cuts, id, params[i].name, #[trigger] args[i])
        }),
    decreases n,
{
    if n > 0 {
        lemma_arguments(c, cuts, bindings, id, params, n - 1);
        let before = emit::arguments(c, bindings, id, params, n - 1)->Ok_0;
        let x = expr::input_text(c, bindings, id, params[n - 1].name)->Ok_0->0;
        lemma_input_reads(c, cuts, bindings, id, params[n - 1].name, x);
        let args = emit::arguments(c, bindings, id, params, n)->Ok_0;
        assert forall|i: int| 0 <= i < n implies input_reads(
            c,
            cuts,
            id,
            params[i].name,
            #[trigger] args[i],
        ) by {
            if i < n - 1 {
                assert(args[i] == before[i]);
            }
        }
    }
}

proof fn lemma_types(c: ContextView, id: NodeId, n: int)
    requires
        0 <= n <= c.g.kind(c.kinds, id).generics.len(),
        emit::resolved_types(c.g, id, c.g.kind(c.kinds, id).generics, n) is Ok,
    ensures
        ({
            let generics = c.g.kind(c.kinds, id).generics;
            let types = emit::resolved_types(c.g, id, generics, n)->Ok_0;
            &&& types.len() == n
            &&& forall|i: int|
                0 <= i < n ==> resolved_to(c, id, generics[i].name, #[trigger] types[i])
        }),
    decreases n,
{
    if n > 0 {
        lemma_types(c, id, n - 1);
        let generics = c.g.kind(c.kinds, id).generics;
        let before = emit::resolved_types(c.g, id, generics, n - 1)->Ok_0;
        let types = emit::resolved_types(c.g, id, generics, n)->Ok_0;
        assert(types.len() == n);
        assert forall|i: int| 0 <= i < n implies resolved_to(
            c,
            id,
            generics[i].name,
            #[trigger] types[i],
        ) by {
            if i < n - 1 {
                assert(types[i] == before[i]);
            }
        }
    }
}

proof fn lemma_more_bound(
    c: ContextView,
    cuts: Seq<CutView>,
    st: EmittedView,
    id: NodeId,
    socket: Seq<char>,
    t: Seq<char>,
)
    requires
        well_bound(c, cuts, st.bindings),
        reads_as(c, cuts, SocketRefView { node: id, socket }, t),
    ensures
        well_bound(c, cuts, emit::with_binding(st, id, socket, t).bindings),
{
}

/// Whether no value of a node crosses.
pub open spec fn stays(cuts: Seq<CutView>, id: NodeId) -> bool {
    forall|i: int| 0 <= i < cuts.len() ==> (#[trigger] cuts[i]).socket.node != id
}

proof fn lemma_outputs(
    c: ContextView,
    cuts: Seq<CutView>,
    st: EmittedView,
    id: NodeId,
    exprs: Seq<Seq<char>>,
    n: int,
) -> (lines: Seq<Seq<char>>)
    requires
        c.g.known(c.kinds, id),
        c.g.kind(c.kinds, id).body == NodeBodyView::Expr(exprs),
        stays(cuts, id),
        0 <= n <= exprs.len() == c.g.kind(c.kinds, id).outputs.len(),
        well_bound(c, cuts, st.bindings),
        emit::with_outputs(c, st, id, c.g.kind(c.kinds, id), exprs, n) is Ok,
    ensures
        ({
            let d = c.g.kind(c.kinds, id);
            let after = emit::with_outputs(c, st, id, d, exprs, n)->Ok_0;
            &&& lines.len() == n
            &&& after.body == st.body + text::flat(lines)
            &&& well_bound(c, cuts, after.bindings)
            &&& forall|k: int|
                0 <= k < n ==> computes_output(
                    c,
                    cuts,
                    id,
                    d.outputs[k],
                    exprs[k],
                    #[trigger] lines[k],
                )
        }),
    decreases n,
{
    let d = c.g.kind(c.kinds, id);
    if n <= 0 {
        let none = Seq::<Seq<char>>::empty();
        assert(st.body + text::flat(none) =~= st.body);
        assert(none.len() == 0);
        none
    } else {
        let before = emit::with_outputs(c, st, id, d, exprs, n - 1)->Ok_0;
        let rest = lemma_outputs(c, cuts, st, id, exprs, n - 1);
        let s = d.outputs[n - 1];
        let at = SocketRefView { node: id, socket: s.name };
        lists::lemma_first_where(c.g.edges, graph::edge_out_of(at));
        let line = lemma_output(c, cuts, before, id, s, exprs[n - 1]);
        let lines1 = rest.push(line);
        text::lemma_flat_push(rest, line);
        assert(st.body + text::flat(rest) + line =~= st.body + (text::flat(rest) + line));
        assert forall|k: int| 0 <= k < n implies computes_output(
            c,
            cuts,
            id,
            d.outputs[k],
            exprs[k],
            #[trigger] lines1[k],
        ) by {
            if k < n - 1 {
                assert(lines1[k] == rest[k]);
            }
        }
        lines1
    }
}

proof fn lemma_output(
    c: ContextView,
    cuts: Seq<CutView>,
    st: EmittedView,
    id: NodeId,
    s: SocketView,
    template: Seq<char>,
) -> (line: Seq<char>)
    requires
        c.g.known(c.kinds, id),
        c.g.kind(c.kinds, id).body is Expr,
        stays(cuts, id),
        well_bound(c, cuts, st.bindings),
        emit::with_output(c, st, id, c.g.kind(c.kinds, id).id, s, template) is Ok,
    ensures
        ({
            let after = emit::with_output(c, st, id, c.g.kind(c.kinds, id).id, s, template)->Ok_0;
            &&& after.body == st.body + line
            &&& well_bound(c, cuts, after.bindings)
            &&& computes_output(c, cuts, id, s, template, line)
        }),
{
    let d = c.g.kind(c.kinds, id);
    let at = SocketRefView { node: id, socket: s.name };
    lists::lemma_first_where(c.g.edges, graph::edge_out_of(at));
    match c.g.edge_from(at) {
        None => {
            assert forall|i: int| 0 <= i < c.g.edges.len() implies (#[trigger] c.g.edges[i]).from
                != at by {
                assert(!graph::edge_out_of(at)(c.g.edges[i]));
            }
            assert(st.body + Seq::<char>::empty() =~= st.body);
            Seq::<char>::empty()
        },
        Some(e) => {
            let i = choose|i: int| 0 <= i < c.g.edges.len() && c.g.edges[i] == e;
            assert(c.g.edges[i].from == at);
            let ps = lemma_filled(c, cuts, st.bindings, id, d.id, template, 0, ""@);
            let x = expr::expanded(c, st.bindings, id, d.id, template, 0, ""@)->Ok_0;
            reveal_strlit("");
            assert(template.skip(0) =~= template);
            assert(""@ + filled_text(ps) =~= filled_text(ps));
            assert(fills(c, cuts, id, template, x));
            let name = "n"@ + text::decimal(id.0 as nat) + "_"@ + s.name;
            lemma_statement(st.body, name, typed(c, id, s), x);
            assert(reads_as(c, cuts, at, name));
            statement(name, typed(c, id, s), x)
        },
    }
}

proof fn lemma_fields(
    c: ContextView,
    cuts: Seq<CutView>,
    st: EmittedView,
    id: NodeId,
    fields: Seq<SocketView>,
    n: int,
)
    requires
        c.g.known(c.kinds, id),
        stays(cuts, id),
        c.g.kind(c.kinds, id).body matches NodeBodyView::Call(f) && f.ret is Struct,
        0 <= n <= fields.len(),
        well_bound(c, cuts, st.bindings),
    ensures
        ({
            let after = emit::with_fields(st, id, emit::binding_of(id, "call"@), fields, n);
            &&& after.body == st.body
            &&& well_bound(c, cuts, after.bindings)
        }),
    decreases n,
{
    if n > 0 {
        lemma_fields(c, cuts, st, id, fields, n - 1);
        let before = emit::with_fields(st, id, emit::binding_of(id, "call"@), fields, n - 1);
        let at = SocketRefView { node: id, socket: fields[n - 1].name };
        assert(reads_as(
            c,
            cuts,
            at,
            emit::binding_of(id, "call"@) + "."@ + fields[n - 1].name,
        ));
    }
}

proof fn lemma_call(
    c: ContextView,
    cuts: Seq<CutView>,
    st: EmittedView,
    id: NodeId,
    f: WxslFunctionView,
) -> (t: Seq<char>)
    requires
        c.g.known(c.kinds, id),
        stays(cuts, id),
        c.g.kind(c.kinds, id).body == NodeBodyView::Call(f),
        well_bound(c, cuts, st.bindings),
        emit::with_call(c, st, id, c.g.kind(c.kinds, id), f) is Ok,
    ensures
        ({
            let after = emit::with_call(c, st, id, c.g.kind(c.kinds, id), f)->Ok_0;
            &&& after.body == st.body + t
            &&& well_bound(c, cuts, after.bindings)
            &&& computes_call(c, cuts, id, f, t)
        }),
{
    let d = c.g.kind(c.kinds, id);
    let args = emit::arguments(c, st.bindings, id, f.params, f.params.len() as int)->Ok_0;
    lemma_arguments(c, cuts, st.bindings, id, f.params, f.params.len() as int);
    assert(passes(c, cuts, id, f.params, args));
    let n = d.generics.len() as int;
    let none = Seq::<Seq<char>>::empty();
    let types = if n == 0 {
        none
    } else {
        emit::resolved_types(c.g, id, d.generics, n)->Ok_0
    };
    if n > 0 {
        lemma_types(c, id, n);
    }
    assert(passes_types(c, id, types));
    let type_args = emit::type_arguments_text(c.g, id, d.generics)->Ok_0;
    lemma_joined("<"@, types);
    reveal_strlit("");
    assert(type_args == (if types.len() == 0 {
        Seq::<char>::empty()
    } else {
        "<"@ + text::joined(types) + ">"@
    })) by {
        if n == 0 {
            assert(""@ =~= Seq::<char>::empty());
        }
    }
    lemma_joined(f.name + type_args + "("@, args);
    let call = emit::call_text(f.name, type_args, args);
    let name = emit::binding_of(id, "call"@);
    let ty = match f.ret {
        FunctionReturnView::Value(s) => typed(c, id, s),
        FunctionReturnView::Struct { name, .. } => name,
    };
    lemma_statement(st.body, name, ty, call);
    let t1 = statement(name, ty, call);
    match f.ret {
        FunctionReturnView::Value(s) => {
            assert(reads_as(c, cuts, SocketRefView { node: id, socket: s.name }, name));
        },
        FunctionReturnView::Struct { name: struct_name, fields } => {
            lemma_fields(
                c,
                cuts,
                EmittedView { body: emit::let_line(st.body, name, struct_name, call), ..st },
                id,
                fields,
                fields.len() as int,
            );
        },
    }
    assert(computes_call(c, cuts, id, f, t1));
    t1
}


proof fn lemma_field_read(l: BufferLayoutView, var: Seq<char>, name: Seq<char>, t: Seq<char>)
    requires
        resources::read_text(l, var, name) == Some(t),
    ensures
        reads_field(l, var, name, t),
{
    let p = resources::field_named(name);
    lists::lemma_first_where(l.fields, p);
    let f = l.field(name)->0;
    let i = choose|i: int| 0 <= i < l.fields.len() && l.fields[i] == f;
    assert(p(f));
    assert(l.fields[i].name == name);
}

proof fn lemma_called(c: ContextView, id: NodeId, setting: Seq<char>, name: Seq<char>)
    requires
        emit::name_of(c.g, c.kinds, id, setting) == Ok::<Seq<char>, error::CodegenErrorView>(name),
    ensures
        called(c, id, setting, name),
{
    let d = c.g.kind(c.kinds, id);
    let p = crate::node::setting_named(setting);
    lists::lemma_first_where(d.settings, p);
    match c.g.setting(c.kinds, id, setting) {
        Some(held) => {
            let s = d.setting(setting)->0;
            let k = choose|k: int| 0 <= k < d.settings.len() && d.settings[k] == s;
            assert(p(s));
            assert(d.settings[k].name == setting);
        },
        None => {},
    }
}

proof fn lemma_attribute_read(c: ContextView, name: Seq<char>, t: Seq<char>)
    requires
        emit::attribute_text(c.interface.geometry, name) == Some(t),
    ensures
        reads_attribute(c, name, t),
{
    let g = c.interface.geometry;
    let p = resources::attribute_named(name);
    let q = resources::varying_named(name);
    lists::lemma_first_where(g.vertex, p);
    lists::lemma_first_where(g.computed, q);
    let vertex = exists|i: int| 0 <= i < g.vertex.len() && (#[trigger] g.vertex[i]).name == name;
    let computed = exists|i: int|
        0 <= i < g.computed.len() && (#[trigger] g.computed[i]).name == name;
    match lists::first_where(g.vertex, p) {
        Some(a) => {
            let i = choose|i: int| 0 <= i < g.vertex.len() && g.vertex[i] == a;
            assert(p(a));
            assert(g.vertex[i].name == name);
        },
        None => {
            if vertex {
                let i = choose|i: int|
                    0 <= i < g.vertex.len() && (#[trigger] g.vertex[i]).name == name;
                assert(p(g.vertex[i]));
            }
        },
    }
    match lists::first_where(g.computed, q) {
        Some(a) => {
            let i = choose|i: int| 0 <= i < g.computed.len() && g.computed[i] == a;
            assert(q(a));
            assert(g.computed[i].name == name);
        },
        None => {
            if computed {
                let i = choose|i: int|
                    0 <= i < g.computed.len() && (#[trigger] g.computed[i]).name == name;
                assert(q(g.computed[i]));
            }
        },
    }
    if !vertex && !computed {
        lemma_field_read(
            g.instance,
            "wxsl_instance_attributes"@ + "["@ + "attrs"@ + "."@ + "wxsl_instance"@ + "]"@,
            name,
            t,
        );
    }
}

proof fn lemma_read(c: ContextView, cuts: Seq<CutView>, id: NodeId, t: Seq<char>)
    requires
        c.g.known(c.kinds, id),
        stays(cuts, id),
        emit::read_of_body(c, id, c.g.kind(c.kinds, id).body) == Ok::<
            Seq<char>,
            error::CodegenErrorView,
        >(t),
        c.g.kind(c.kinds, id).body matches b && (b is ContextRead || b is VertexContextRead || b
            is Param || b is Resource || b is UserRead || b is AttributeRead),
    ensures
        forall|socket: Seq<char>| #[trigger]
            reads_as(c, cuts, SocketRefView { node: id, socket }, t),
{
    let body = c.g.kind(c.kinds, id).body;
    match body {
        NodeBodyView::Param => {
            let name = emit::name_of(c.g, c.kinds, id, "name"@)->Ok_0;
            lemma_called(c, id, "name"@, name);
            lemma_field_read(c.interface.params, "material"@, name, t);
        },
        NodeBodyView::Resource => {
            lemma_called(c, id, "name"@, t);
        },
        NodeBodyView::UserRead => {
            let name = emit::name_of(c.g, c.kinds, id, "field"@)->Ok_0;
            lemma_called(c, id, "field"@, name);
            let user = c.interface.user->0;
            lemma_field_read(user.layout, user.name, name, t);
        },
        NodeBodyView::AttributeRead => {
            let name = emit::name_of(c.g, c.kinds, id, "name"@)->Ok_0;
            lemma_called(c, id, "name"@, name);
            lemma_attribute_read(c, name, t);
        },
        _ => {},
    }
}

/// A node adds to a function exactly what it computes, and its outputs read as
/// that from there on.
pub proof fn nodes_write_what_they_compute(
    c: ContextView,
    cuts: Seq<CutView>,
    st: EmittedView,
    id: NodeId,
) -> (t: Seq<char>)
    requires
        stays(cuts, id),
        well_bound(c, cuts, st.bindings),
        emit::with_emitted(c, st, id) is Ok,
    ensures
        emit::with_emitted(c, st, id)->Ok_0.body == st.body + t,
        writes(c, cuts, id, t),
        well_bound(c, cuts, emit::with_emitted(c, st, id)->Ok_0.bindings),
{
    let d = c.g.kind(c.kinds, id);
    let asked = EmittedView {
        imports: expr::with_imports(st.imports, d.all_imports(), d.all_imports().len() as int),
        ..st
    };
    let none = Seq::<char>::empty();
    assert(st.body + none =~= st.body);
    match d.body {
        NodeBodyView::Expr(exprs) => {
            let lines = lemma_outputs(c, cuts, asked, id, exprs, exprs.len() as int);
            let t1 = text::flat(lines);
            assert(writes(c, cuts, id, t1));
            t1
        },
        NodeBodyView::Call(f) => {
            let t1 = lemma_call(c, cuts, asked, id, f);
            assert(writes(c, cuts, id, t1));
            t1
        },
        NodeBodyView::SurfaceOutput => none,
        NodeBodyView::VertexOutput => none,
        NodeBodyView::DiscardOutput => none,
        NodeBodyView::VaryingOutput => none,
        NodeBodyView::Document => none,
        _ => {
            let x = emit::read_of_body(c, id, d.body)->Ok_0;
            lemma_read(c, cuts, id, x);
            lemma_more_bound(c, cuts, asked, id, d.outputs[0].name, x);
            none
        },
    }
}


// ---------------------------------------------------------------------------
// Functions

/// Whether these are the nodes that an end depends on, itself among them, each
/// once and after every node that feeds it. What lies behind a value that
/// crosses is left to the stage that computes it.
pub open spec fn leads_up(
    c: ContextView,
    cuts: Seq<CutView>,
    end: NodeId,
    order: Seq<NodeId>,
) -> bool {
    let stops = Set::new(|id: NodeId| !stays(cuts, id));
    &&& order.no_duplicates()
    &&& forall|id: NodeId| #[trigger]
        order.contains(id) <==> c.g.nodes.contains_key(id) && traversal::leads_to(
            c.g.edges,
            stops,
            id,
            end,
        )
    &&& forall|i: int, a: int, b: int|
        0 <= i < c.g.edges.len() && 0 <= a < order.len() && 0 <= b < order.len()
            && #[trigger] order[a] == (#[trigger] c.g.edges[i]).from.node && #[trigger] order[b]
            == c.g.edges[i].to.node ==> a < b
}

/// Whether a text computes everything that an end depends on: the statements
/// of each node, those that feed it first.
pub open spec fn prepares(c: ContextView, cuts: Seq<CutView>, end: NodeId, body: Seq<char>) -> bool {
    exists|order: Seq<NodeId>, texts: Seq<Seq<char>>| #[trigger]
        leads_up(c, cuts, end, order) && body == #[trigger] text::flat(texts) && texts.len()
            == order.len() && forall|k: int|
            0 <= k < order.len() ==> adds(c, cuts, end, order[k], #[trigger] texts[k])
}

/// Whether a text is what a node adds on the way to an end: what it computes;
/// nothing for the end itself and for what crossed.
pub open spec fn adds(
    c: ContextView,
    cuts: Seq<CutView>,
    end: NodeId,
    id: NodeId,
    t: Seq<char>,
) -> bool {
    if id == end || !stays(cuts, id) {
        t == Seq::<char>::empty()
    } else {
        writes(c, cuts, id, t)
    }
}

proof fn lemma_nodes(
    c: ContextView,
    cuts: Seq<CutView>,
    st: EmittedView,
    order: Seq<NodeId>,
    skip: Set<NodeId>,
    end: NodeId,
    n: int,
) -> (texts: Seq<Seq<char>>)
    requires
        0 <= n <= order.len(),
        well_bound(c, cuts, st.bindings),
        forall|id: NodeId| #[trigger] skip.contains(id) <==> id == end || !stays(cuts, id),
        partition::with_nodes(c, st, order, skip, n) is Ok,
    ensures
        texts.len() == n,
        partition::with_nodes(c, st, order, skip, n)->Ok_0.body == st.body + text::flat(texts),
        well_bound(c, cuts, partition::with_nodes(c, st, order, skip, n)->Ok_0.bindings),
        forall|k: int| 0 <= k < n ==> adds(c, cuts, end, order[k], #[trigger] texts[k]),
    decreases n,
{
    if n <= 0 {
        let none = Seq::<Seq<char>>::empty();
        assert(st.body + text::flat(none) =~= st.body);
        assert(none.len() == 0);
        none
    } else {
        let before = partition::with_nodes(c, st, order, skip, n - 1)->Ok_0;
        let rest = lemma_nodes(c, cuts, st, order, skip, end, n - 1);
        let id = order[n - 1];
        let t = lemma_node(c, cuts, before, skip, end, id);
        let texts1 = rest.push(t);
        text::lemma_flat_push(rest, t);
        assert(st.body + text::flat(rest) + t =~= st.body + (text::flat(rest) + t));
        assert forall|k: int| 0 <= k < n implies adds(
            c,
            cuts,
            end,
            order[k],
            #[trigger] texts1[k],
        ) by {
            if k < n - 1 {
                assert(texts1[k] == rest[k]);
            }
        }
        texts1
    }
}

proof fn lemma_node(
    c: ContextView,
    cuts: Seq<CutView>,
    before: EmittedView,
    skip: Set<NodeId>,
    end: NodeId,
    id: NodeId,
) -> (t: Seq<char>)
    requires
        well_bound(c, cuts, before.bindings),
        forall|x: NodeId| #[trigger] skip.contains(x) <==> x == end || !stays(cuts, x),
        !skip.contains(id) ==> emit::with_emitted(c, before, id) is Ok,
    ensures
        ({
            let after = if skip.contains(id) {
                before
            } else {
                emit::with_emitted(c, before, id)->Ok_0
            };
            &&& after.body == before.body + t
            &&& well_bound(c, cuts, after.bindings)
            &&& adds(c, cuts, end, id, t)
        }),
{
    if skip.contains(id) {
        let none = Seq::<char>::empty();
        assert(before.body + none =~= before.body);
        none
    } else {
        nodes_write_what_they_compute(c, cuts, before, id)
    }
}

/// Whether nothing feeds an input of an end: no edge, no pinned value and none
/// that the input has for its type.
pub open spec fn unfed(c: ContextView, end: NodeId, socket: Seq<char>) -> bool {
    &&& forall|i: int|
        0 <= i < c.g.edges.len() ==> (#[trigger] c.g.edges[i]).to != (SocketRefView {
            node: end,
            socket,
        })
    &&& !c.g.nodes[end].params.contains_key(socket)
    &&& exists|k: int|
        0 <= k < c.g.kind(c.kinds, end).inputs.len() && (#[trigger] c.g.kind(
            c.kinds,
            end,
        ).inputs[k]).name == socket && starts_with(c, end, c.g.kind(c.kinds, end).inputs[k]) is None
}

/// Whether these are what the inputs of an end read: each is one of its
/// inputs, and each of its inputs is there that something feeds.
pub open spec fn reads_inputs(
    c: ContextView,
    cuts: Seq<CutView>,
    end: NodeId,
    read: Seq<(Seq<char>, Seq<char>)>,
) -> bool {
    let inputs = c.g.kind(c.kinds, end).inputs;
    &&& c.g.known(c.kinds, end)
    &&& forall|i: int|
        0 <= i < read.len() ==> input_reads(c, cuts, end, (#[trigger] read[i]).0, read[i].1)
    &&& forall|i: int| 0 <= i < read.len() ==> has_input(inputs, (#[trigger] read[i]).0)
    &&& forall|k: int|
        0 <= k < inputs.len() ==> lists_input(read, (#[trigger] inputs[k]).name) || unfed(
            c,
            end,
            inputs[k].name,
        )
    &&& distinct_inputs(inputs) ==> forall|i: int, j: int|
        0 <= i < j < read.len() ==> (#[trigger] read[i]).0 != (#[trigger] read[j]).0
}

/// Whether there is an input of a name.
pub open spec fn has_input(inputs: Seq<SocketView>, name: Seq<char>) -> bool {
    exists|k: int| 0 <= k < inputs.len() && (#[trigger] inputs[k]).name == name
}

/// Whether no two inputs have one name.
pub open spec fn distinct_inputs(inputs: Seq<SocketView>) -> bool {
    forall|i: int, j: int|
        0 <= i < j < inputs.len() ==> (#[trigger] inputs[i]).name != (#[trigger] inputs[j]).name
}

/// Whether an input is among those read.
pub open spec fn lists_input(read: Seq<(Seq<char>, Seq<char>)>, name: Seq<char>) -> bool {
    exists|i: int| 0 <= i < read.len() && (#[trigger] read[i]).0 == name
}

proof fn lemma_inputs(
    c: ContextView,
    cuts: Seq<CutView>,
    bindings: Map<SocketRefView, Seq<char>>,
    end: NodeId,
    n: int,
)
    requires
        c.g.known(c.kinds, end),
        well_bound(c, cuts, bindings),
        0 <= n <= c.g.kind(c.kinds, end).inputs.len(),
        partition::inputs_read(c, bindings, end, c.g.kind(c.kinds, end).inputs, n) is Ok,
    ensures
        ({
            let inputs = c.g.kind(c.kinds, end).inputs;
            let read = partition::inputs_read(c, bindings, end, inputs, n)->Ok_0;
            &&& forall|i: int|
                0 <= i < read.len() ==> input_reads(c, cuts, end, (#[trigger] read[i]).0, read[i].1)
            &&& forall|i: int|
                0 <= i < read.len() ==> has_input(inputs.take(n), (#[trigger] read[i]).0)
            &&& forall|k: int|
                0 <= k < n ==> lists_input(read, (#[trigger] inputs[k]).name) || unfed(
                    c,
                    end,
                    inputs[k].name,
                )
            &&& distinct_inputs(inputs) ==> forall|i: int, j: int|
                0 <= i < j < read.len() ==> (#[trigger] read[i]).0 != (#[trigger] read[j]).0
        }),
    decreases n,
{
    if n > 0 {
        lemma_inputs(c, cuts, bindings, end, n - 1);
        let inputs = c.g.kind(c.kinds, end).inputs;
        let before = partition::inputs_read(c, bindings, end, inputs, n - 1)->Ok_0;
        let read = partition::inputs_read(c, bindings, end, inputs, n)->Ok_0;
        let name = inputs[n - 1].name;
        let at = SocketRefView { node: end, socket: name };
        assert forall|x: Seq<char>| has_input(inputs.take(n - 1), x) implies #[trigger] has_input(
            inputs.take(n),
            x,
        ) by {
            let k = choose|k: int|
                0 <= k < n - 1 && (#[trigger] inputs.take(n - 1)[k]).name == x;
            assert(inputs.take(n)[k].name == x);
        }
        assert forall|x: Seq<char>| lists_input(before, x) implies #[trigger] lists_input(
            read,
            x,
        ) by {
            let i = choose|i: int| 0 <= i < before.len() && (#[trigger] before[i]).0 == x;
            assert(read[i].0 == x);
        }
        match expr::input_text(c, bindings, end, name)->Ok_0 {
            Some(t) => {
                lemma_input_reads(c, cuts, bindings, end, name, t);
                assert(inputs.take(n)[n - 1].name == name);
                assert(read[before.len() as int].0 == name);
                assert forall|i: int| 0 <= i < read.len() implies input_reads(
                    c,
                    cuts,
                    end,
                    (#[trigger] read[i]).0,
                    read[i].1,
                ) && has_input(inputs.take(n), read[i].0) by {
                    if i < before.len() {
                        assert(read[i] == before[i]);
                    }
                }
                if distinct_inputs(inputs) {
                    assert forall|i: int, j: int| 0 <= i < j < read.len() implies (
                    #[trigger] read[i]).0 != (#[trigger] read[j]).0 by {
                        assert(read[i] == before[i]);
                        if j < before.len() {
                            assert(read[j] == before[j]);
                        } else {
                            assert(has_input(inputs.take(n - 1), before[i].0));
                            let k = choose|k: int|
                                0 <= k < n - 1 && (#[trigger] inputs.take(n - 1)[k]).name
                                    == before[i].0;
                            assert(inputs[k].name != inputs[n - 1].name);
                        }
                    }
                }
            },
            None => {
                lists::lemma_first_where(c.g.edges, graph::edge_to(at));
                assert forall|i: int| 0 <= i < c.g.edges.len() implies (#[trigger] c.g.edges[i]).to
                    != at by {
                    assert(!graph::edge_to(at)(c.g.edges[i]));
                }
                let d = c.g.kind(c.kinds, end);
                lists::lemma_first_where(d.inputs, crate::node::socket_named(name));
                let s = d.input(name)->0;
                let k = choose|k: int| 0 <= k < d.inputs.len() && d.inputs[k] == s;
                assert(crate::node::socket_named(name)(s));
                assert(d.inputs[k].name == name);
                assert(unfed(c, end, name));
            },
        }
    }
}

proof fn lemma_ended(c: ContextView, cuts: Seq<CutView>, st: EmittedView, end: NodeId)
    requires
        well_bound(c, cuts, st.bindings),
        partition::ended(c, st, end) is Ok,
    ensures
        reads_inputs(c, cuts, end, partition::ended(c, st, end)->Ok_0.0.inputs),
        partition::ended(c, st, end)->Ok_0.0.body == st.body,
{
    let inputs = c.g.kind(c.kinds, end).inputs;
    lemma_inputs(c, cuts, st.bindings, end, inputs.len() as int);
    assert(inputs.take(inputs.len() as int) =~= inputs);
}

proof fn lemma_crossed(c: ContextView, cuts: Seq<CutView>, n: int)
    requires
        0 <= n <= cuts.len(),
    ensures
        well_bound(c, cuts, partition::crossed_bindings(cuts, n)),
    decreases n,
{
    if n > 0 {
        lemma_crossed(c, cuts, n - 1);
        let t = "attrs"@ + "."@ + cuts[n - 1].name;
        assert(cuts[n - 1].socket == cuts[n - 1].socket);
        assert(reads_as(c, cuts, cuts[n - 1].socket, t));
    }
}

pub(crate) proof fn lemma_order(c: ContextView, cuts: Seq<CutView>, stops: Set<NodeId>, end: NodeId)
    requires
        forall|id: NodeId| #[trigger] stops.contains(id) <==> !stays(cuts, id),
        topology::topological(c.g, Some(traversal::dependencies(c.g.edges, stops, end))) is Ok,
    ensures
        leads_up(
            c,
            cuts,
            end,
            topology::topological(
                c.g,
                Some(traversal::dependencies(c.g.edges, stops, end)),
            )->Ok_0,
        ),
{
    let needed = Some(traversal::dependencies(c.g.edges, stops, end));
    let order = topology::topological(c.g, needed)->Ok_0;
    topology::order_respects_edges(c.g, needed);
    assert(stops =~= Set::new(|id: NodeId| !stays(cuts, id)));
    assert forall|id: NodeId| #[trigger] order.contains(id) <==> c.g.nodes.contains_key(id)
        && traversal::leads_to(c.g.edges, stops, id, end) by {
        assert(order.contains(id) <==> topology::in_play(c.g, needed, id));
    }
    assert forall|i: int, a: int, b: int|
        0 <= i < c.g.edges.len() && 0 <= a < order.len() && 0 <= b < order.len()
            && #[trigger] order[a] == (#[trigger] c.g.edges[i]).from.node && #[trigger] order[b]
            == c.g.edges[i].to.node implies a < b by {
        assert(order.contains(order[a]) && order.contains(order[b]));
        assert(topology::in_play(c.g, needed, order[a]));
        assert(topology::in_play(c.g, needed, order[b]));
        assert(topology::hinders(needed, c.g.edges[i], order[b]));
    }
}

proof fn lemma_between(
    c: ContextView,
    cuts: Seq<CutView>,
    bindings: Map<SocketRefView, Seq<char>>,
    imports: expr::Imports,
    end: NodeId,
    stops: Set<NodeId>,
)
    requires
        forall|id: NodeId| #[trigger] stops.contains(id) <==> !stays(cuts, id),
        well_bound(c, cuts, bindings),
        partition::compiled_between(c, bindings, imports, end, stops) is Ok,
    ensures
        ({
            let part = partition::compiled_between(c, bindings, imports, end, stops)->Ok_0.0;
            prepares(c, cuts, end, part.body) && reads_inputs(c, cuts, end, part.inputs)
        }),
{
    let order = topology::topological(
        c.g,
        Some(traversal::dependencies(c.g.edges, stops, end)),
    )->Ok_0;
    lemma_order(c, cuts, stops, end);
    let start = EmittedView { bindings, imports, body: ""@ };
    let skip = stops.insert(end);
    let st = partition::with_nodes(c, start, order, skip, order.len() as int)->Ok_0;
    let texts = lemma_nodes(c, cuts, start, order, skip, end, order.len() as int);
    reveal_strlit("");
    assert(""@ + text::flat(texts) =~= text::flat(texts));
    lemma_ended(c, cuts, st, end);
    assert(prepares(c, cuts, end, st.body));
}

/// A function of the fragment stage computes everything that its end depends
/// on and that did not cross, and its end's inputs read what feeds them.
pub proof fn fragment_functions_compute_their_end(
    c: ContextView,
    imports: expr::Imports,
    end: NodeId,
    cuts: Seq<CutView>,
)
    requires
        partition::compiled_fragment(c, imports, end, cuts) is Ok,
    ensures
        ({
            let part = partition::compiled_fragment(c, imports, end, cuts)->Ok_0.0;
            prepares(c, cuts, end, part.body) && reads_inputs(c, cuts, end, part.inputs)
        }),
{
    lemma_crossed(c, cuts, cuts.len() as int);
    let stops = partition::cut_nodes(cuts);
    assert forall|id: NodeId| #[trigger] stops.contains(id) <==> !stays(cuts, id) by {}
    lemma_between(
        c,
        cuts,
        partition::crossed_bindings(cuts, cuts.len() as int),
        imports,
        end,
        stops,
    );
}

/// A function of the vertex stage computes everything that its end depends on,
/// and its end's inputs read what feeds them.
pub proof fn vertex_functions_compute_their_end(
    c: ContextView,
    imports: expr::Imports,
    end: NodeId,
)
    requires
        partition::compiled_end(c, imports, end) is Ok,
    ensures
        ({
            let part = partition::compiled_end(c, imports, end)->Ok_0.0;
            prepares(c, Seq::empty(), end, part.body) && reads_inputs(
                c,
                Seq::empty(),
                end,
                part.inputs,
            )
        }),
{
    let none = Seq::<CutView>::empty();
    lemma_between(c, none, Map::empty(), imports, end, Set::empty());
}

/// The function of a value that crosses computes its node and everything that
/// this depends on, and reads that value.
pub proof fn crossing_functions_compute_their_value(
    c: ContextView,
    imports: expr::Imports,
    socket: SocketRefView,
)
    requires
        partition::compiled_cut(c, imports, socket) is Ok,
    ensures
        ({
            let part = partition::compiled_cut(c, imports, socket)->Ok_0.0;
            &&& exists|before: Seq<char>, own: Seq<char>|
                part.body == #[trigger] (before + own) && prepares(
                    c,
                    Seq::empty(),
                    socket.node,
                    before,
                ) && writes(c, Seq::empty(), socket.node, own)
            &&& part.inputs.len() == 1
            &&& part.inputs[0].0 == "value"@
            &&& reads_as(c, Seq::empty(), socket, part.inputs[0].1)
        }),
{
    let none = Seq::<CutView>::empty();
    let stops = Set::<NodeId>::empty();
    let order = topology::topological(
        c.g,
        Some(traversal::dependencies(c.g.edges, stops, socket.node)),
    )->Ok_0;
    lemma_order(c, none, stops, socket.node);
    let start = EmittedView { bindings: Map::empty(), imports, body: ""@ };
    let skip = stops.insert(socket.node);
    let st = partition::with_nodes(c, start, order, skip, order.len() as int)->Ok_0;
    let texts = lemma_nodes(c, none, start, order, skip, socket.node, order.len() as int);
    reveal_strlit("");
    assert(""@ + text::flat(texts) =~= text::flat(texts));
    assert(prepares(c, none, socket.node, st.body));
    let own = nodes_write_what_they_compute(c, none, st, socket.node);
    let part = partition::compiled_cut(c, imports, socket)->Ok_0.0;
    assert(part.body == st.body + own);
}

} // verus!
