//! Expressions of generated source: what an input reads, and how a template
//! is filled in.

use vstd::prelude::*;

use crate::copies::clone_vec;
use crate::error::{CodegenError, CodegenErrorView, GraphError, GraphErrorView, GraphErrors};
use crate::graph;
use crate::graph::{Graph, GraphView, Kinds, ShaderStage};
use crate::ids::{NodeId, SocketRef, SocketRefView};
use crate::lists;
use crate::node;
use crate::node::{contains_text, NodeDefinition, NodeRegistry, Socket, SocketView};
use crate::resources::{MaterialInterface, MaterialInterfaceView};
use crate::text;
use crate::text::{chars_of, find_char, is_digit_char, is_letter_char, text_of};
use crate::textmap::TextMap;
use crate::value;
use crate::value::Value;
use crate::wxsl;

verus! {

// ---------------------------------------------------------------------------
// Atoms

/// How many round brackets are open at `to` of those from `from` on.
pub open spec fn nesting(s: Seq<char>, from: int, to: int) -> int
    decreases to - from,
{
    if to <= from {
        0
    } else {
        nesting(s, from, to - 1) + (if s[to - 1] == '(' {
            1int
        } else if s[to - 1] == ')' {
            -1int
        } else {
            0int
        })
    }
}

/// A name, a field access or a plain number.
pub open spec fn is_plain(s: Seq<char>) -> bool {
    s.len() > 0 && forall|i: int| 0 <= i < s.len() ==> wxsl::name_char(#[trigger] s[i]) || s[i] == '.'
}

/// One call, whose first bracket is closed by the last character.
pub open spec fn is_call(s: Seq<char>) -> bool {
    let open = text::next_char(s, '(', 0);
    &&& 0 < open < s.len()
    &&& forall|i: int| 0 <= i < open ==> wxsl::name_char(#[trigger] s[i])
    &&& forall|i: int| open < i < s.len() ==> #[trigger] nesting(s, open, i) > 0
    &&& nesting(s, open, s.len() as int) == 0
}

/// Whether an expression binds tighter than any operator.
pub open spec fn atomic(s: Seq<char>) -> bool {
    is_plain(s) || is_call(s)
}

/// An expression that stands as one operand: in brackets, unless it binds
/// tighter than any operator.
pub open spec fn atom(s: Seq<char>) -> Seq<char> {
    if atomic(s) {
        s
    } else {
        "("@ + s + ")"@
    }
}

/// Whether all of `chars[from..to]` can stand in a name, or are dots where
/// those count.
fn is_name(chars: &Vec<char>, to: usize, dots: bool) -> (r: bool)
    requires
        to <= chars@.len(),
    ensures
        r == forall|i: int|
            0 <= i < to ==> wxsl::name_char(#[trigger] chars@[i]) || (dots && chars@[i] == '.'),
{
    let mut i: usize = 0;
    while i < to
        invariant
            i <= to <= chars@.len(),
            forall|j: int|
                0 <= j < i ==> wxsl::name_char(#[trigger] chars@[j]) || (dots && chars@[j] == '.'),
        decreases to - i,
    {
        let c = chars[i];
        if !(is_letter_char(c) || is_digit_char(c) || c == '_' || (dots && c == '.')) {
            assert(!(wxsl::name_char(chars@[i as int]) || (dots && chars@[i as int] == '.')));
            return false;
        }
        i += 1;
    }
    true
}

/// Whether an expression binds tighter than any operator.
pub fn is_atomic(expr: &str) -> (r: bool)
    ensures
        r == atomic(expr@),
{
    let chars = chars_of(expr);
    let ghost s = expr@;
    let n: usize = chars.len();
    if n > 0 && is_name(&chars, n, true) {
        assert(is_plain(s));
        return true;
    }
    assert(!is_plain(s));
    let open: usize = find_char(&chars, '(', 0);
    if open == 0 || open >= n || !is_name(&chars, open, false) {
        assert(!is_call(s));
        return false;
    }
    proof {
        text::lemma_next_char(s, '(', 0);
    }
    let mut depth: usize = 0;
    let mut i: usize = open;
    while i < n
        invariant
            s == chars@,
            s == expr@,
            n == s.len(),
            open < n,
            open <= i <= n,
            open == text::next_char(s, '(', 0),
            open > 0,
            !is_plain(s),
            forall|j: int| 0 <= j < open ==> wxsl::name_char(#[trigger] s[j]),
            s[open as int] == '(',
            depth == nesting(s, open as int, i as int),
            depth <= i - open,
            i > open && i < n ==> depth > 0,
            forall|j: int| open < j < i ==> #[trigger] nesting(s, open as int, j) > 0,
        decreases n - i,
    {
        let c = chars[i];
        if c == '(' {
            depth += 1;
        } else if c == ')' {
            depth -= 1;
            if depth == 0 && i + 1 != n {
                assert(nesting(s, open as int, i + 1) == 0);
                assert(!is_call(s));
                return false;
            }
        }
        assert(depth == nesting(s, open as int, i + 1));
        i += 1;
    }
    depth == 0
}

/// An expression that stands as one operand.
pub fn as_atom(expr: &str) -> (r: String)
    ensures
        r@ == atom(expr@),
{
    if is_atomic(expr) {
        expr.to_owned()
    } else {
        let mut r = "(".to_owned();
        r.append(expr);
        r.append(")");
        r
    }
}

// ---------------------------------------------------------------------------
// Bindings

/// The expression that each output reads as, the last one given winning.
pub open spec fn bound_among(s: Seq<(SocketRefView, Seq<char>)>, n: int) -> Map<
    SocketRefView,
    Seq<char>,
>
    decreases n,
{
    if n <= 0 {
        Map::empty()
    } else {
        bound_among(s, n - 1).insert(s[n - 1].0, s[n - 1].1)
    }
}

/// The expression that each output emitted so far reads as.
pub struct Bindings {
    entries: Vec<(SocketRef, String)>,
}

impl View for Bindings {
    type V = Map<SocketRefView, Seq<char>>;

    closed spec fn view(&self) -> Map<SocketRefView, Seq<char>> {
        bound_among(text::seq_of(self.entries@), self.entries@.len() as int)
    }
}

proof fn lemma_bound_before(
    s: Seq<(SocketRefView, Seq<char>)>,
    t: Seq<(SocketRefView, Seq<char>)>,
    n: int,
)
    requires
        forall|i: int| 0 <= i < n ==> s[i] == t[i],
    ensures
        bound_among(s, n) == bound_among(t, n),
    decreases n,
{
    if n > 0 {
        lemma_bound_before(s, t, n - 1);
    }
}

impl Bindings {
    /// No output yet.
    pub fn new() -> (r: Self)
        ensures
            r@ == Map::<SocketRefView, Seq<char>>::empty(),
    {
        Bindings { entries: Vec::new() }
    }

    /// Let an output read as an expression.
    pub fn bind(&mut self, socket: SocketRef, expr: String)
        ensures
            final(self)@ == old(self)@.insert(socket@, expr@),
    {
        let ghost before = self.entries@;
        self.entries.push((socket, expr));
        proof {
            let n = before.len() as int;
            let s = text::seq_of(self.entries@);
            assert(s[n] == (socket@, expr@));
            lemma_bound_before(s, text::seq_of(before), n);
        }
    }

    /// The expression that an output reads as.
    pub fn get(&self, socket: &SocketRef) -> (r: Option<&str>)
        ensures
            text::opt_of(r) == (if self@.contains_key(socket@) {
                Some(self@[socket@])
            } else {
                None
            }),
    {
        let ghost s = text::seq_of(self.entries@);
        let ghost all = self@;
        let mut i: usize = self.entries.len();
        while i > 0
            invariant
                i <= s.len() == self.entries@.len(),
                s == text::seq_of(self.entries@),
                all.contains_key(socket@) == bound_among(s, i as int).contains_key(socket@),
                all.contains_key(socket@) ==> all[socket@] == bound_among(s, i as int)[socket@],
                all == self@,
            decreases i,
        {
            i -= 1;
            assert(s[i as int] == self.entries@[i as int]@);
            if self.entries[i].0.same(socket) {
                return Some(self.entries[i].1.as_str());
            }
        }
        None
    }
}

// ---------------------------------------------------------------------------
// Imports

/// What a module imports from each other module, in the order it was asked
/// for.
pub type Imports = Map<Seq<char>, Seq<Seq<char>>>;

/// The imports and one more.
pub open spec fn with_import(imports: Imports, module: Seq<char>, item: Seq<char>) -> Imports {
    let items = if imports.contains_key(module) {
        imports[module]
    } else {
        Seq::empty()
    };
    imports.insert(
        module,
        if items.contains(item) {
            items
        } else {
            items.push(item)
        },
    )
}

/// The imports and the first `n` of a list.
pub open spec fn with_imports(imports: Imports, list: Seq<(Seq<char>, Seq<char>)>, n: int) -> Imports
    decreases n,
{
    if n <= 0 {
        imports
    } else {
        with_import(with_imports(imports, list, n - 1), list[n - 1].0, list[n - 1].1)
    }
}

/// The items that a module imports from another.
#[derive(Debug, PartialEq)]
pub struct ImportItems {
    /// The items, in the order they were asked for.
    pub items: Vec<String>,
}

impl View for ImportItems {
    type V = Seq<Seq<char>>;

    open spec fn view(&self) -> Seq<Seq<char>> {
        text::seq_of(self.items@)
    }
}

impl Clone for ImportItems {
    fn clone(&self) -> (r: Self)
        ensures
            r@ == self@,
    {
        ImportItems { items: clone_vec(&self.items) }
    }
}

/// Ask for an import.
pub fn request_import(imports: &mut TextMap<ImportItems>, module: &str, item: &str)
    ensures
        final(imports)@ == with_import(old(imports)@, module@, item@),
{
    let mut items: Vec<String> = match imports.get(module) {
        Some(known) => clone_vec(&known.items),
        None => Vec::new(),
    };
    let ghost before = text::seq_of(items@);
    assert(!imports@.contains_key(module@) ==> before =~= Seq::<Seq<char>>::empty());
    if !contains_text(&items, item) {
        items.push(item.to_owned());
        assert(text::seq_of(items@) =~= before.push(item@));
    }
    imports.insert(module.to_owned(), ImportItems { items });
}

// ---------------------------------------------------------------------------
// Inputs

/// What the source of a node is made from.
pub struct ContextView {
    /// The graph.
    pub g: GraphView,
    /// The kinds of node.
    pub kinds: Kinds,
    /// What the material asks to be bound.
    pub interface: MaterialInterfaceView,
    /// The stage that the node is computed in.
    pub stage: ShaderStage,
}

/// What the source of a node is made from.
pub struct Context<'a> {
    /// The graph.
    pub graph: &'a Graph,
    /// The kinds of node.
    pub registry: &'a NodeRegistry,
    /// What the material asks to be bound.
    pub interface: &'a MaterialInterface,
    /// The stage that the node is computed in.
    pub stage: ShaderStage,
}

impl<'a> View for Context<'a> {
    type V = ContextView;

    open spec fn view(&self) -> ContextView {
        ContextView {
            g: self.graph@,
            kinds: self.registry@,
            interface: self.interface@,
            stage: self.stage,
        }
    }
}

/// A problem with the graph, found while its source is made.
pub open spec fn invalid(e: GraphErrorView) -> CodegenErrorView {
    CodegenErrorView::Invalid(seq![e])
}

/// The value that an input which nothing feeds takes: the one the node pins,
/// or the one the socket has for its type.
pub open spec fn unfed_value(g: GraphView, id: NodeId, socket: SocketView) -> Option<Value> {
    if g.nodes[id].params.contains_key(socket.name) {
        Some(g.nodes[id].params[socket.name])
    } else {
        match g.effective_type(id, socket) {
            Some(ty) => node::default_of(socket, ty),
            None => None,
        }
    }
}

/// What an input reads: the output that feeds it, or the value it takes.
/// Nothing where it may stay unfed and does.
pub open spec fn input_text(
    c: ContextView,
    bindings: Map<SocketRefView, Seq<char>>,
    id: NodeId,
    name: Seq<char>,
) -> Result<Option<Seq<char>>, CodegenErrorView> {
    let at = SocketRefView { node: id, socket: name };
    match c.g.edge_into(at) {
        Some(edge) => if bindings.contains_key(edge.from) {
            Ok(Some(bindings[edge.from]))
        } else {
            Err(invalid(GraphErrorView::Cycle { nodes: seq![edge.from.node, id] }))
        },
        None => match c.g.definition(c.kinds, id) {
            Err(e) => Err(invalid(e)),
            Ok(def) => match def.input(name) {
                None => Err(
                    CodegenErrorView::BadTemplate { def: def.id, placeholder: name },
                ),
                Some(socket) => match unfed_value(c.g, id, socket) {
                    Some(value) => match value::value_literal(value) {
                        Some(literal) => Ok(Some(literal)),
                        None => Err(CodegenErrorView::UnrepresentableValue { socket: at }),
                    },
                    None => if socket.optional {
                        Ok(None)
                    } else {
                        Err(invalid(GraphErrorView::MissingInput { socket: at }))
                    },
                },
            },
        },
    }
}

/// Wrap a problem with the graph.
pub(crate) fn invalid_graph(e: GraphError) -> (r: CodegenError)
    ensures
        r@ == invalid(e@),
{
    let errors = GraphErrors::one(e);
    CodegenError::Invalid(errors)
}

/// The value that an input which nothing feeds takes.
fn value_unfed(graph: &Graph, id: NodeId, socket: &Socket) -> (r: Option<Value>)
    requires
        graph@.nodes.contains_key(id),
    ensures
        r == unfed_value(graph@, id, socket@),
{
    let pinned: Option<Value> = match graph.node(id) {
        Some(node) => match node.params.get(socket.name.as_str()) {
            Some(value) => Some(*value),
            None => None,
        },
        None => None,
    };
    match pinned {
        Some(value) => Some(value),
        None => match graph.effective_type(id, socket) {
            Some(ty) => socket.default_for(ty),
            None => None,
        },
    }
}

/// What an input reads.
pub fn input_expr(c: &Context, bindings: &Bindings, id: NodeId, name: &str) -> (r: Result<
    Option<String>,
    CodegenError,
>)
    ensures
        match (r, input_text(c@, bindings@, id, name@)) {
            (Ok(a), Ok(b)) => text::opt_of(a) == b,
            (Err(e), Err(v)) => e@ == v,
            _ => false,
        },
{
    let at = SocketRef::new(id, name);
    match c.graph.edge_into(&at) {
        Some(edge) => {
            return match bindings.get(&edge.from) {
                Some(expr) => Ok(Some(expr.to_owned())),
                None => {
                    let mut nodes: Vec<NodeId> = Vec::new();
                    nodes.push(edge.from.node);
                    nodes.push(id);
                    assert(nodes@ =~= seq![edge.from.node, id]);
                    Err(invalid_graph(GraphError::Cycle { nodes }))
                },
            };
        },
        None => {},
    }
    let def = match c.graph.definition(c.registry, id) {
        Ok(d) => d,
        Err(e) => {
            return Err(invalid_graph(e));
        },
    };
    let socket = match def.input(name) {
        Some(s) => s,
        None => {
            return Err(
                CodegenError::BadTemplate { def: def.id.clone(), placeholder: name.to_owned() },
            );
        },
    };
    assert(socket@.name == name@) by {
        lists::lemma_first_where(def@.inputs, node::socket_named(name@));
    }
    match value_unfed(c.graph, id, socket) {
        Some(value) => match value.wxsl_literal() {
            Some(literal) => Ok(Some(literal)),
            None => Err(CodegenError::UnrepresentableValue { socket: at }),
        },
        None => if socket.optional {
            Ok(None)
        } else {
            Err(invalid_graph(GraphError::MissingInput { socket: at }))
        },
    }
}

// ---------------------------------------------------------------------------
// Templates

/// The text with `}}` for `}` undone, from `i` up to `to`.
pub open spec fn unescaped(out: Seq<char>, s: Seq<char>, i: int, to: int) -> Seq<char>
    decreases to - i,
{
    if i >= to {
        out
    } else if i + 1 < to && s[i] == '}' && s[i + 1] == '}' {
        unescaped(out.push('}'), s, i + 2, to)
    } else {
        unescaped(out.push(s[i]), s, i + 1, to)
    }
}

/// A template filled in from position `i` on: `{name}` is what the input of
/// that name reads, `{$T}` the type that a parameter resolved to, and `{{` a
/// brace.
pub open spec fn expanded(
    c: ContextView,
    bindings: Map<SocketRefView, Seq<char>>,
    id: NodeId,
    def: Seq<char>,
    s: Seq<char>,
    i: int,
    out: Seq<char>,
) -> Result<Seq<char>, CodegenErrorView>
    decreases s.len() - i,
{
    if !(0 <= i <= s.len()) {
        Ok(out)
    } else {
        let open = text::next_char(s, '{', i);
        let close = text::next_char(s, '}', open + 1);
        let name = s.subrange(open + 1, close);
        let before = unescaped(out, s, i, open);
        proof {
            text::lemma_next_char(s, '{', i);
            if open < s.len() {
                text::lemma_next_char(s, '}', open + 1);
            }
        }
        if open >= s.len() {
            Ok(before)
        } else if open + 1 < s.len() && s[open + 1] == '{' {
            expanded(c, bindings, id, def, s, open + 2, before.push('{'))
        } else if close >= s.len() {
            Err(CodegenErrorView::BadTemplate { def, placeholder: name })
        } else if name.len() > 0 && name[0] == '$' {
            match graph::generic_of(c.g, id, name.skip(1)) {
                Some(ty) => expanded(
                    c,
                    bindings,
                    id,
                    def,
                    s,
                    close + 1,
                    before + ty.wxsl_type()@,
                ),
                None => Err(CodegenErrorView::BadTemplate { def, placeholder: name }),
            }
        } else {
            match input_text(c, bindings, id, name) {
                Ok(Some(expr)) => expanded(
                    c,
                    bindings,
                    id,
                    def,
                    s,
                    close + 1,
                    before + atom(expr),
                ),
                Ok(None) => Err(CodegenErrorView::BadTemplate { def, placeholder: name }),
                Err(e) => Err(e),
            }
        }
    }
}

/// Append text with `}}` for `}` undone.
fn push_unescaped(out: &mut String, chars: &Vec<char>, from: usize, to: usize)
    requires
        from <= to <= chars@.len(),
    ensures
        final(out)@ == unescaped(old(out)@, chars@, from as int, to as int),
{
    let ghost start = out@;
    let mut i: usize = from;
    while i < to
        invariant
            from <= i <= to <= chars@.len(),
            unescaped(out@, chars@, i as int, to as int) == unescaped(
                start,
                chars@,
                from as int,
                to as int,
            ),
        decreases to - i,
    {
        if i + 1 < to && chars[i] == '}' && chars[i + 1] == '}' {
            out.push('}');
            i += 2;
        } else {
            out.push(chars[i]);
            i += 1;
        }
    }
}

/// Fill in a template of a node's kind.
pub fn expand_template(
    c: &Context,
    bindings: &Bindings,
    id: NodeId,
    def: &NodeDefinition,
    template: &str,
) -> (r: Result<String, CodegenError>)
    ensures
        match (r, expanded(c@, bindings@, id, def@.id, template@, 0, ""@)) {
            (Ok(a), Ok(b)) => a@ == b,
            (Err(e), Err(v)) => e@ == v,
            _ => false,
        },
{
    let chars = chars_of(template);
    let ghost s = template@;
    let mut out = "".to_owned();
    let mut i: usize = 0;
    loop
        invariant
            s == chars@,
            s == template@,
            i <= s.len(),
            expanded(c@, bindings@, id, def@.id, s, i as int, out@) == expanded(
                c@,
                bindings@,
                id,
                def@.id,
                s,
                0,
                ""@,
            ),
        decreases s.len() - i,
    {
        let open: usize = find_char(&chars, '{', i);
        push_unescaped(&mut out, &chars, i, open);
        if open >= chars.len() {
            return Ok(out);
        }
        if open + 1 < chars.len() && chars[open + 1] == '{' {
            out.push('{');
            i = open + 2;
            continue;
        }
        let close: usize = find_char(&chars, '}', open + 1);
        let name = text_of(&chars, open + 1, close);
        if close >= chars.len() {
            return Err(
                CodegenError::BadTemplate { def: def.id.clone(), placeholder: name },
            );
        }
        if open + 1 < close && chars[open + 1] == '$' {
            let param = text_of(&chars, open + 2, close);
            assert(param@ =~= name@.skip(1));
            match c.graph.generic_type(id, param.as_str()) {
                Some(ty) => {
                    out.append(ty.wxsl_type());
                },
                None => {
                    return Err(
                        CodegenError::BadTemplate { def: def.id.clone(), placeholder: name },
                    );
                },
            }
        } else {
            match input_expr(c, bindings, id, name.as_str()) {
                Ok(Some(expr)) => {
                    out.append(as_atom(expr.as_str()).as_str());
                },
                Ok(None) => {
                    return Err(
                        CodegenError::BadTemplate { def: def.id.clone(), placeholder: name },
                    );
                },
                Err(e) => {
                    return Err(e);
                },
            }
        }
        i = close + 1;
    }
}

} // verus!
