//! The macro values that a graph is compiled with.

use vstd::prelude::*;

use crate::error::{GraphError, GraphErrorView, GraphErrors};
use crate::graph::{Graph, GraphView, Kinds, NodeId};
use crate::macros;
use crate::macros::{MacroDef, MacroDefView, MacroSet, MacroValue};
use crate::node::NodeRegistry;
use crate::text;
use crate::textmap;
use crate::textmap::TextMap;
use crate::wxsl;
use crate::wxsl::WxslIdent;

verus! {

/// What was declared, by name, and where declarations disagreed.
pub type Declared = (Map<Seq<char>, MacroDefView>, Seq<GraphErrorView>);

/// What is declared with one declaration more: the first of a name stands, and
/// one with another default is a problem unless the macro is pinned.
pub open spec fn with_declaration(
    held: Declared,
    pinned: Map<Seq<char>, MacroValue>,
    decl: MacroDefView,
) -> Declared {
    let (known, errors) = held;
    if !known.contains_key(decl.name) {
        (known.insert(decl.name, decl), errors)
    } else if !macros::macro_eq(known[decl.name].default, decl.default) && !pinned.contains_key(
        decl.name,
    ) {
        (
            known,
            errors.push(
                GraphErrorView::ConflictingMacroDefault {
                    name: decl.name,
                    first: known[decl.name].default,
                    second: decl.default,
                },
            ),
        )
    } else {
        held
    }
}

/// What is declared with the first `n` of these declarations more.
pub open spec fn with_declarations(
    held: Declared,
    pinned: Map<Seq<char>, MacroValue>,
    decls: Seq<MacroDefView>,
    n: int,
) -> Declared
    decreases n,
{
    if n <= 0 {
        held
    } else {
        with_declaration(with_declarations(held, pinned, decls, n - 1), pinned, decls[n - 1])
    }
}

/// What the first `n` of these nodes declare.
pub open spec fn declared_among(g: GraphView, kinds: Kinds, ids: Seq<NodeId>, n: int) -> Declared
    decreases n,
{
    if n <= 0 {
        (Map::empty(), Seq::empty())
    } else {
        let before = declared_among(g, kinds, ids, n - 1);
        if g.known(kinds, ids[n - 1]) {
            let decls = g.kind(kinds, ids[n - 1]).macros;
            with_declarations(before, g.macros, decls, decls.len() as int)
        } else {
            before
        }
    }
}

/// What the nodes of a graph declare.
pub open spec fn declared_of(g: GraphView, kinds: Kinds) -> Declared {
    declared_among(g, kinds, g.ids(), g.ids().len() as int)
}

/// The default of every declared macro.
pub open spec fn defaults_of(known: Map<Seq<char>, MacroDefView>) -> Map<Seq<char>, MacroValue> {
    known.map_values(|d: MacroDefView| d.default)
}

/// What is wrong with pinning a macro to a value.
pub open spec fn pin_problem(
    known: Map<Seq<char>, MacroDefView>,
    name: Seq<char>,
    value: MacroValue,
) -> Option<GraphErrorView> {
    if !wxsl::is_ident(name) {
        Some(GraphErrorView::InvalidMacroName { name })
    } else if known.contains_key(name) && known[name].default.kind() != value.kind() {
        Some(
            GraphErrorView::MacroKindMismatch {
                name,
                supplied: value,
                declared: known[name].default,
            },
        )
    } else {
        None
    }
}

/// The values with the first `n` of these pins put in, and the problems found.
pub open spec fn with_pins(
    start: (Map<Seq<char>, MacroValue>, Seq<GraphErrorView>),
    known: Map<Seq<char>, MacroDefView>,
    pinned: Map<Seq<char>, MacroValue>,
    names: Seq<Seq<char>>,
    n: int,
) -> (Map<Seq<char>, MacroValue>, Seq<GraphErrorView>)
    decreases n,
{
    if n <= 0 {
        start
    } else {
        let (values, errors) = with_pins(start, known, pinned, names, n - 1);
        let name = names[n - 1];
        match pin_problem(known, name, pinned[name]) {
            Some(e) => (values, errors.push(e)),
            None => (values.insert(name, pinned[name]), errors),
        }
    }
}

/// The macro values a graph is compiled with: every declared default, with
/// what the graph pins over it; or every problem with that.
pub open spec fn effective_of_macros(g: GraphView, kinds: Kinds) -> Result<
    Map<Seq<char>, MacroValue>,
    Seq<GraphErrorView>,
> {
    let (known, errors) = declared_of(g, kinds);
    let names = textmap::in_order(g.macros.dom());
    let (values, all) = with_pins(
        (defaults_of(known), errors),
        known,
        g.macros,
        names,
        names.len() as int,
    );
    if all.len() == 0 {
        Ok(values)
    } else {
        Err(all)
    }
}

proof fn lemma_with_pins(
    start: (Map<Seq<char>, MacroValue>, Seq<GraphErrorView>),
    known: Map<Seq<char>, MacroDefView>,
    pinned: Map<Seq<char>, MacroValue>,
    names: Seq<Seq<char>>,
    n: int,
)
    requires
        n <= names.len(),
    ensures
        start.1.len() <= with_pins(start, known, pinned, names, n).1.len(),
        with_pins(start, known, pinned, names, n).1.len() == 0 ==> {
            let values = with_pins(start, known, pinned, names, n).0;
            &&& forall|k: Seq<char>| #[trigger]
                values.contains_key(k) <==> start.0.contains_key(k) || exists|i: int|
                    0 <= i < n && #[trigger] names[i] == k
            &&& forall|i: int| 0 <= i < n ==> values[#[trigger] names[i]] == pinned[names[i]]
            &&& forall|k: Seq<char>|
                start.0.contains_key(k) && (forall|i: int| 0 <= i < n ==> #[trigger] names[i] != k)
                    ==> #[trigger] values[k] == start.0[k]
        },
    decreases n,
{
    if n > 0 {
        lemma_with_pins(start, known, pinned, names, n - 1);
        let (values, errors) = with_pins(start, known, pinned, names, n - 1);
        let now = with_pins(start, known, pinned, names, n);
        if now.1.len() == 0 {
            let name = names[n - 1];
            assert forall|k: Seq<char>| #[trigger] now.0.contains_key(k) <==> start.0.contains_key(
                k,
            ) || exists|i: int| 0 <= i < n && #[trigger] names[i] == k by {
                if k == name {
                    assert(names[n - 1] == k);
                } else {
                    assert(values.contains_key(k) <==> start.0.contains_key(k) || exists|i: int|
                        0 <= i < n - 1 && #[trigger] names[i] == k);
                    if exists|i: int| 0 <= i < n && #[trigger] names[i] == k {
                        let i = choose|i: int| 0 <= i < n && #[trigger] names[i] == k;
                        assert(i < n - 1);
                    }
                }
            }
        }
    }
}

/// What a graph is compiled with is what it pins, and for what it does not pin
/// the declared default; nothing else has a value.
pub proof fn pins_beat_defaults(g: GraphView, kinds: Kinds)
    requires
        effective_of_macros(g, kinds) is Ok,
        g.macros.dom().finite(),
    ensures
        effective_of_macros(g, kinds)->Ok_0 == defaults_of(
            declared_of(g, kinds).0,
        ).union_prefer_right(g.macros),
{
    textmap::lemma_in_order(g.macros.dom());
    let (known, errors) = declared_of(g, kinds);
    let names = textmap::in_order(g.macros.dom());
    let start = (defaults_of(known), errors);
    lemma_with_pins(start, known, g.macros, names, names.len() as int);
    let values = effective_of_macros(g, kinds)->Ok_0;
    assert forall|k: Seq<char>| g.macros.contains_key(k) <==> exists|i: int|
        0 <= i < names.len() && #[trigger] names[i] == k by {
        assert(g.macros.dom().contains(k) <==> names.contains(k));
    }
    assert(values =~= defaults_of(known).union_prefer_right(g.macros));
}

impl Graph {
    /// Take one declaration in: the first of a name stands, and one with
    /// another default is a problem unless the macro is pinned.
    fn declare(
        &self,
        known: &mut TextMap<MacroDef>,
        errors: &mut Vec<GraphError>,
        decl: &MacroDef,
    )
        ensures
            (final(known)@, text::seq_of(final(errors)@)) == with_declaration(
                (old(known)@, text::seq_of(old(errors)@)),
                self@.macros,
                decl@,
            ),
    {
        let name = decl.name.as_str();
        match known.get(name) {
            None => {
                known.insert(name.to_owned(), decl.clone());
            },
            Some(existing) => {
                if !existing.default.same(decl.default) && !self.macros.contains(name) {
                    let ghost before = errors@;
                    errors.push(
                        GraphError::ConflictingMacroDefault {
                            name: name.to_owned(),
                            first: existing.default,
                            second: decl.default,
                        },
                    );
                    assert(text::seq_of(errors@) =~= text::seq_of(before).push(
                        GraphErrorView::ConflictingMacroDefault {
                            name: name@,
                            first: existing.default,
                            second: decl.default,
                        },
                    ));
                }
            },
        }
    }

    /// The macros that the graph's nodes declare, by name, and where
    /// declarations of one disagree about its default.
    pub fn declared_macros(&self, registry: &NodeRegistry) -> (r: (
        TextMap<MacroDef>,
        Vec<GraphError>,
    ))
        ensures
            (r.0@, text::seq_of(r.1@)) == declared_of(self@, registry@),
    {
        let ghost g = self@;
        let ghost kinds = registry@;
        let ghost ids = g.ids();
        let mut known: TextMap<MacroDef> = TextMap::new();
        let mut errors: Vec<GraphError> = Vec::new();
        let n: usize = self.nodes.len();
        let mut i: usize = 0;
        assert(text::seq_of(errors@) =~= Seq::empty());
        while i < n
            invariant
                i <= n == ids.len(),
                g == self@,
                g.nodes == self.nodes@.nodes,
                kinds == registry@,
                ids == g.ids(),
                (known@, text::seq_of(errors@)) == declared_among(g, kinds, ids, i as int),
            decreases n - i,
        {
            let id = self.nodes.key_at(i);
            match self.definition(registry, id) {
                Ok(def) => {
                    let ghost before = (known@, text::seq_of(errors@));
                    let ghost decls = def@.macros;
                    let mut k: usize = 0;
                    while k < def.macros.len()
                        invariant
                            k <= decls.len() == def.macros@.len(),
                            decls == text::seq_of(def.macros@),
                            g == self@,
                            (known@, text::seq_of(errors@)) == with_declarations(
                                before,
                                g.macros,
                                decls,
                                k as int,
                            ),
                        decreases decls.len() - k,
                    {
                        assert(decls[k as int] == def.macros@[k as int]@);
                        self.declare(&mut known, &mut errors, &def.macros[k]);
                        k += 1;
                    }
                },
                Err(_) => {},
            }
            i += 1;
        }
        (known, errors)
    }

    /// The macro values to compile with: every declared default, with what the
    /// graph pins over it. What is pinned and not declared is kept.
    pub fn effective_macros(&self, registry: &NodeRegistry) -> (r: Result<MacroSet, GraphErrors>)
        ensures
            match (r, effective_of_macros(self@, registry@)) {
                (Ok(m), Ok(v)) => m@ == v,
                (Err(e), Err(v)) => e@ == v,
                _ => false,
            },
            textmap::lists(textmap::in_order(self@.macros.dom()), self@.macros.dom()),
    {
        let ghost g = self@;
        let (known, mut errors) = self.declared_macros(registry);
        let ghost found = text::seq_of(errors@);
        let mut values = MacroSet::new();
        let n: usize = known.len();
        let ghost keys = textmap::in_order(known@.dom());
        let mut i: usize = 0;
        while i < n
            invariant
                i <= n == keys.len(),
                keys == textmap::in_order(known@.dom()),
                forall|k: Seq<char>| #[trigger]
                    values@.contains_key(k) <==> keys.take(i as int).contains(k),
                forall|k: Seq<char>| #[trigger]
                    values@.contains_key(k) ==> values@[k] == known@[k].default,
            decreases n - i,
        {
            values.set(known.key_at(i), known.value_at(i).default);
            proof {
                let t0 = keys.take(i as int);
                let t1 = keys.take(i + 1);
                assert(t1 =~= t0.push(keys[i as int]));
                assert forall|k: Seq<char>| t1.contains(k) <==> t0.contains(k) || k
                    == keys[i as int] by {
                    if t1.contains(k) {
                        let j = choose|j: int| 0 <= j < t1.len() && t1[j] == k;
                        if j < t0.len() {
                            assert(t0[j] == k);
                        }
                    }
                    if t0.contains(k) {
                        let j = choose|j: int| 0 <= j < t0.len() && t0[j] == k;
                        assert(t1[j] == k);
                    }
                    assert(t1[t0.len() as int] == keys[i as int]);
                }
            }
            i += 1;
        }
        proof {
            assert(keys.take(keys.len() as int) =~= keys);
            assert forall|k: Seq<char>| values@.contains_key(k) <==> known@.contains_key(k) by {
                assert(known@.dom().contains(k) <==> keys.contains(k));
            }
            assert(values@ =~= defaults_of(known@));
        }
        let ghost start = (values@, found);
        let ghost names = textmap::in_order(g.macros.dom());
        let n: usize = self.macros.len();
        let mut i: usize = 0;
        while i < n
            invariant
                i <= n == names.len(),
                g == self@,
                names == textmap::in_order(g.macros.dom()),
                g.macros == self.macros@,
                (values@, text::seq_of(errors@)) == with_pins(
                    start,
                    known@,
                    g.macros,
                    names,
                    i as int,
                ),
            decreases n - i,
        {
            let name = self.macros.name_at(i);
            let value = self.macros.value_at(i);
            let ghost before = errors@;
            if WxslIdent::new(name).is_none() {
                errors.push(GraphError::InvalidMacroName { name: name.to_owned() });
                assert(text::seq_of(errors@) =~= text::seq_of(before).push(
                    GraphErrorView::InvalidMacroName { name: name@ },
                ));
            } else {
                let clash = match known.get(name) {
                    Some(decl) => if decl.default.kind() != value.kind() {
                        Some(decl.default)
                    } else {
                        None
                    },
                    None => None,
                };
                match clash {
                    Some(declared) => {
                        errors.push(
                            GraphError::MacroKindMismatch {
                                name: name.to_owned(),
                                supplied: value,
                                declared,
                            },
                        );
                        assert(text::seq_of(errors@) =~= text::seq_of(before).push(
                            GraphErrorView::MacroKindMismatch {
                                name: name@,
                                supplied: value,
                                declared,
                            },
                        ));
                    },
                    None => {
                        values.set(name, value);
                    },
                }
            }
            i += 1;
        }
        assert(text::seq_of(errors@).len() == errors@.len());
        if errors.len() == 0 {
            Ok(values)
        } else {
            Err(GraphErrors(errors))
        }
    }
}

} // verus!
