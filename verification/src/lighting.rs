//! The lighting models, and the shaders generated from those enabled.
//!
//! A model is a function of one fixed signature and a small id:
//!
//! ```text
//! fn <function>(surface: Surface, ctx: SurfaceContext, light: LightSample, extra: vec4f) -> vec3f
//! ```
//!
//! A material names one. A deferred pipeline enables a set of them, packs the
//! id of each fragment's choice into the G-buffer, and dispatches on it; a
//! forward pass calls the material's own model and needs no id.

use vstd::prelude::*;

use crate::abi;
use crate::abi::{GBufferPrecision, GBufferTarget};
use crate::copies::copy_vec;
use crate::lists;
use crate::sorting;
use crate::sorting::sort_stable;
use crate::text;
use crate::text::{push_number, same_text};
use crate::wxsl;
use crate::wxsl::hash_text;

verus! {

/// The field of the G-buffer that holds the id to dispatch on.
pub const MODEL_ID_FIELD: &'static str = "lighting";

/// What an id is divided by to travel in the G-buffer.
pub const MODEL_ID_SCALE: u32 = 255;

/// The target of the G-buffer that holds the id to dispatch on: one channel,
/// in which `id / 255` survives being stored.
#[verifier::allow_in_spec]
pub fn model_id_target() -> GBufferTarget
    returns
        (GBufferTarget {
            field: MODEL_ID_FIELD,
            doc: "lighting model id / 255 (see LightingSet)",
            precision: GBufferPrecision::NormalizedScalar,
        }),
{
    GBufferTarget {
        field: MODEL_ID_FIELD,
        doc: "lighting model id / 255 (see LightingSet)",
        precision: GBufferPrecision::NormalizedScalar,
    }
}

/// What a model asks the G-buffer to carry for it.
#[derive(Clone, Copy, Debug, PartialEq, Eq, Hash)]
pub struct ModelExtra {
    /// The target it asks for.
    pub target: GBufferTarget,
    /// The function of the model's module that fills it from a surface.
    pub pack: &'static str,
}

/// A lighting model.
#[derive(Clone, Copy, Debug, PartialEq, Eq, Hash)]
pub struct LightingModel {
    /// The id fragments carry for it.
    pub id: u32,
    /// The name materials call it by.
    pub name: &'static str,
    /// The module of its function.
    pub module: &'static str,
    /// Its function.
    pub function: &'static str,
    /// What it asks the G-buffer to carry.
    pub extra: Option<ModelExtra>,
    /// What it is.
    pub doc: &'static str,
}

impl View for LightingModel {
    type V = LightingModel;

    open spec fn view(&self) -> LightingModel {
        *self
    }
}

impl View for GBufferTarget {
    type V = GBufferTarget;

    open spec fn view(&self) -> GBufferTarget {
        *self
    }
}

/// Why lighting cannot be as asked for.
#[derive(Debug, PartialEq)]
pub enum LightingError {
    /// Two models have one id.
    DuplicateId {
        /// The id.
        id: u32,
    },
    /// Two models have one name.
    DuplicateName {
        /// The name.
        name: String,
    },
    /// No model is enabled.
    Empty,
    /// A material names a model that is not enabled.
    UnknownModel {
        /// The name.
        name: String,
    },
    /// A pipeline is asked for a feature that does not exist.
    UnknownFeature {
        /// The name.
        name: String,
    },
    /// A material turns on a feature that the pipeline carries no channel for.
    FeatureNotCarried {
        /// The macro that turns it on.
        macro_name: String,
        /// The feature.
        feature: String,
    },
}

/// What a [`LightingError`] stands for.
#[verifier::ext_equal]
pub enum LightingErrorView {
    /// Two models have one id.
    DuplicateId {
        /// The id.
        id: u32,
    },
    /// Two models have one name.
    DuplicateName {
        /// The name.
        name: Seq<char>,
    },
    /// No model is enabled.
    Empty,
    /// A material names a model that is not enabled.
    UnknownModel {
        /// The name.
        name: Seq<char>,
    },
    /// A pipeline is asked for a feature that does not exist.
    UnknownFeature {
        /// The name.
        name: Seq<char>,
    },
    /// A material turns on a feature that the pipeline carries no channel for.
    FeatureNotCarried {
        /// The macro that turns it on.
        macro_name: Seq<char>,
        /// The feature.
        feature: Seq<char>,
    },
}

impl View for LightingError {
    type V = LightingErrorView;

    open spec fn view(&self) -> LightingErrorView {
        match *self {
            LightingError::DuplicateId { id } => LightingErrorView::DuplicateId {
                id: id,
            },
            LightingError::DuplicateName { name } => LightingErrorView::DuplicateName {
                name: name@,
            },
            LightingError::Empty => LightingErrorView::Empty,
            LightingError::UnknownModel { name } => LightingErrorView::UnknownModel {
                name: name@,
            },
            LightingError::UnknownFeature { name } => LightingErrorView::UnknownFeature {
                name: name@,
            },
            LightingError::FeatureNotCarried { macro_name, feature } => LightingErrorView::FeatureNotCarried {
                macro_name: macro_name@,
                feature: feature@,
            },
        }
    }
}

impl Clone for LightingError {
    fn clone(&self) -> (r: Self)
        ensures
            r@ == self@,
    {
        match self {
            LightingError::DuplicateId { id } => LightingError::DuplicateId {
                id: *id,
            },
            LightingError::DuplicateName { name } => LightingError::DuplicateName {
                name: name.clone(),
            },
            LightingError::Empty => LightingError::Empty,
            LightingError::UnknownModel { name } => LightingError::UnknownModel {
                name: name.clone(),
            },
            LightingError::UnknownFeature { name } => LightingError::UnknownFeature {
                name: name.clone(),
            },
            LightingError::FeatureNotCarried { macro_name, feature } => LightingError::FeatureNotCarried {
                macro_name: macro_name.clone(),
                feature: feature.clone(),
            },
        }
    }
}

/// The text of a lighting error.
pub open spec fn lighting_error_text(e: LightingErrorView) -> Seq<char> {
    match e {
        LightingErrorView::DuplicateId { id } => "two lighting models claim id "@ + text::decimal(
            id as nat,
        ),
        LightingErrorView::DuplicateName { name } => "two lighting models are named `"@ + name
            + "`"@,
        LightingErrorView::Empty => "a lighting model set cannot be empty"@,
        LightingErrorView::UnknownModel { name } => "no lighting model named `"@ + name
            + "` is enabled"@,
        LightingErrorView::UnknownFeature { name } => "no feature named `"@ + name + "` ships"@,
        LightingErrorView::FeatureNotCarried { macro_name, feature } => "macro `"@ + macro_name
            + "` turns on feature `"@ + feature
            + "`, and the pipeline carries no channel for it"@,
    }
}

impl LightingError {
    /// The error in words.
    pub fn text(&self) -> (r: String)
        ensures
            r@ == lighting_error_text(self@),
    {
        match self {
            LightingError::DuplicateId { id } => {
                let mut out = "two lighting models claim id ".to_owned();
                push_number(&mut out, *id as u64);
                out
            },
            LightingError::DuplicateName { name } => {
                let mut out = "two lighting models are named `".to_owned();
                out.append(name.as_str());
                out.append("`");
                out
            },
            LightingError::Empty => "a lighting model set cannot be empty".to_owned(),
            LightingError::UnknownModel { name } => {
                let mut out = "no lighting model named `".to_owned();
                out.append(name.as_str());
                out.append("` is enabled");
                out
            },
            LightingError::UnknownFeature { name } => {
                let mut out = "no feature named `".to_owned();
                out.append(name.as_str());
                out.append("` ships");
                out
            },
            LightingError::FeatureNotCarried { macro_name, feature } => {
                let mut out = "macro `".to_owned();
                out.append(macro_name.as_str());
                out.append("` turns on feature `");
                out.append(feature.as_str());
                out.append("`, and the pipeline carries no channel for it");
                out
            },
        }
    }
}

/// The order of ids.
pub open spec fn by_id() -> spec_fn(LightingModel, LightingModel) -> bool {
    |a: LightingModel, b: LightingModel| a.id < b.id
}

/// Whether the models come in the order of their ids, no two of one.
pub open spec fn ids_ascend(s: Seq<LightingModel>) -> bool {
    forall|i: int, j: int| 0 <= i < j < s.len() ==> (#[trigger] s[i]).id < (#[trigger] s[j]).id
}

/// The first id from position `i` on that a later model has too.
pub open spec fn repeated_id(s: Seq<LightingModel>, i: int) -> Option<u32>
    decreases s.len() - i,
{
    if i >= s.len() {
        None
    } else if exists|j: int| i < j < s.len() && (#[trigger] s[j]).id == s[i].id {
        Some(s[i].id)
    } else {
        repeated_id(s, i + 1)
    }
}

/// The first name from position `i` on that another model has too.
pub open spec fn repeated_name(s: Seq<LightingModel>, i: int) -> Option<Seq<char>>
    decreases s.len() - i,
{
    if i >= s.len() {
        None
    } else if exists|j: int|
        0 <= j < s.len() && j != i && (#[trigger] s[j]).name@ == s[i].name@ {
        Some(s[i].name@)
    } else {
        repeated_name(s, i + 1)
    }
}

/// The models enabled together: in the order of their ids, or why they cannot
/// be.
pub open spec fn set_of(models: Seq<LightingModel>) -> Result<
    Seq<LightingModel>,
    LightingErrorView,
> {
    let s = sorting::sorted(models, by_id());
    if models.len() == 0 {
        Err(LightingErrorView::Empty)
    } else {
        match repeated_id(s, 0) {
            Some(id) => Err(LightingErrorView::DuplicateId { id }),
            None => match repeated_name(s, 0) {
                Some(name) => Err(LightingErrorView::DuplicateName { name }),
                None => Ok(s),
            },
        }
    }
}

/// Being the model of this id.
pub open spec fn model_of(id: u32) -> spec_fn(LightingModel) -> bool {
    |m: LightingModel| m.id == id
}

/// Being the model of this name.
pub open spec fn model_named(name: Seq<char>) -> spec_fn(LightingModel) -> bool {
    |m: LightingModel| m.name@ == name
}

/// What the first `n` models ask the G-buffer to carry.
pub open spec fn extras_of(s: Seq<LightingModel>, n: int) -> Seq<ModelExtra>
    decreases n,
{
    if n <= 0 {
        Seq::empty()
    } else {
        match s[n - 1].extra {
            Some(e) => extras_of(s, n - 1).push(e),
            None => extras_of(s, n - 1),
        }
    }
}

/// The targets of a G-buffer: those every G-buffer has, the id where there is
/// more than one model, then what the models ask for, in the order of ids.
pub open spec fn layout_of(s: Seq<LightingModel>) -> Seq<GBufferTarget> {
    let extras = extras_of(s, s.len() as int);
    let base = abi::gbuffer_base_targets()@;
    let with_id = if s.len() > 1 {
        base.push(model_id_target())
    } else {
        base
    };
    with_id + Seq::new(extras.len(), |i: int| extras[i].target)
}

/// `name:id` for the first `n` models, parted by commas.
pub open spec fn models_signature(out: Seq<char>, s: Seq<LightingModel>, n: int) -> Seq<char>
    decreases n,
{
    if n <= 0 {
        out
    } else {
        let before = models_signature(out, s, n - 1);
        (if n > 1 {
            before + ","@
        } else {
            before
        }) + s[n - 1].name@ + ":"@ + text::decimal(s[n - 1].id as nat)
    }
}

/// One line that tells two sets apart.
pub open spec fn set_signature(s: Seq<LightingModel>) -> Seq<char> {
    models_signature("models="@, s, s.len() as int)
}

/// The lighting models that a pipeline enables, in the order of their ids.
#[derive(Debug, PartialEq)]
pub struct LightingSet {
    models: Vec<LightingModel>,
}

impl View for LightingSet {
    type V = Seq<LightingModel>;

    closed spec fn view(&self) -> Seq<LightingModel> {
        self.models@
    }
}

impl Clone for LightingSet {
    fn clone(&self) -> (r: Self)
        ensures
            r@ == self@,
    {
        proof {
            use_type_invariant(self);
        }
        LightingSet { models: copy_vec(&self.models) }
    }
}

proof fn lemma_by_id_is_strict()
    ensures
        sorting::strict_order(by_id()),
{
}

proof fn lemma_no_repeat(s: Seq<LightingModel>, i: int)
    requires
        0 <= i,
        repeated_id(s, i) is None,
    ensures
        forall|j: int, k: int|
            i <= j < k < s.len() ==> (#[trigger] s[j]).id != (#[trigger] s[k]).id,
    decreases s.len() - i,
{
    if i < s.len() {
        lemma_no_repeat(s, i + 1);
        assert forall|j: int, k: int| i <= j < k < s.len() implies (#[trigger] s[j]).id != (
        #[trigger] s[k]).id by {
            if j == i {
                assert(!(s[k].id == s[i].id));
            }
        }
    }
}

/// A set that holds together is in the order of ids, no two of one.
pub proof fn sets_are_in_order(models: Seq<LightingModel>)
    requires
        set_of(models) is Ok,
    ensures
        ids_ascend(set_of(models)->Ok_0),
        set_of(models)->Ok_0.len() > 0,
{
    let s = sorting::sorted(models, by_id());
    lemma_by_id_is_strict();
    sorting::lemma_sorted(models, by_id());
    lemma_no_repeat(s, 0);
    assert forall|i: int, j: int| 0 <= i < j < s.len() implies (#[trigger] s[i]).id < (
    #[trigger] s[j]).id by {
        assert(!by_id()(s[j], s[i]));
        assert(s[i].id != s[j].id);
    }
}

/// The same models in another order are the same set.
pub proof fn sets_ignore_the_order_of_models(a: Seq<LightingModel>, b: Seq<LightingModel>)
    requires
        set_of(a) is Ok,
        a.to_multiset() == b.to_multiset(),
    ensures
        set_of(b) == set_of(a),
{
    broadcast use vstd::seq_lib::group_to_multiset_ensures;

    lemma_by_id_is_strict();
    sorting::lemma_sorted(a, by_id());
    sorting::lemma_sorted(b, by_id());
    let s = sorting::sorted(a, by_id());
    let t = sorting::sorted(b, by_id());
    sets_are_in_order(a);
    assert(a.len() == a.to_multiset().len());
    assert(b.len() == b.to_multiset().len());
    assert forall|i: int, j: int| 0 <= i < s.len() && 0 <= j < s.len() && i != j implies by_id()(
        #[trigger] s[i],
        #[trigger] s[j],
    ) || by_id()(s[j], s[i]) by {
        if i < j {
            assert(s[i].id < s[j].id);
        } else {
            assert(s[j].id < s[i].id);
        }
    }
    assert forall|y: LightingModel| #[trigger] s.contains(y) <==> t.contains(y) by {
        assert(s.contains(y) <==> s.to_multiset().contains(y));
        assert(t.contains(y) <==> t.to_multiset().contains(y));
    }
    assert(s.no_duplicates());
    s.lemma_multiset_has_no_duplicates();
    t.lemma_multiset_has_no_duplicates_conv();
    sorting::lemma_order_is_unique(s, t, by_id());
}

/// Whether a model of this name and id is among these.
pub open spec fn lists_model(s: Seq<LightingModel>, name: Seq<char>, id: u32) -> bool {
    exists|i: int| 0 <= i < s.len() && (#[trigger] s[i]).name@ == name && s[i].id == id
}

/// The names of the models hold neither of the characters that part them in a
/// signature.
pub open spec fn plainly_named(s: Seq<LightingModel>) -> bool {
    forall|i: int|
        0 <= i < s.len() ==> !(#[trigger] s[i]).name@.contains(',') && !s[i].name@.contains(':')
}

/// The names and ids of models.
spec fn named_ids(s: Seq<LightingModel>) -> Seq<(Seq<char>, u32)> {
    Seq::new(s.len(), |i: int| (s[i].name@, s[i].id))
}

proof fn lemma_signature_of_names(
    out: Seq<char>,
    a: Seq<LightingModel>,
    b: Seq<LightingModel>,
    n: int,
)
    requires
        n <= a.len() == b.len(),
        named_ids(a) == named_ids(b),
    ensures
        models_signature(out, a, n) == models_signature(out, b, n),
    decreases n,
{
    if n > 0 {
        lemma_signature_of_names(out, a, b, n - 1);
        assert(named_ids(a)[n - 1] == named_ids(b)[n - 1]);
    }
}

proof fn lemma_signature_read(
    out: Seq<char>,
    a: Seq<LightingModel>,
    b: Seq<LightingModel>,
    n: int,
    m: int,
)
    requires
        0 <= n <= a.len(),
        0 <= m <= b.len(),
        plainly_named(a),
        plainly_named(b),
        !out.contains(','),
        !out.contains(':'),
        models_signature(out, a, n) == models_signature(out, b, m),
    ensures
        n == m,
        forall|i: int|
            0 <= i < n ==> (#[trigger] a[i]).name@ == (#[trigger] b[i]).name@ && a[i].id == b[i].id,
    decreases n,
{
    reveal_strlit(":");
    reveal_strlit(",");
    let s = models_signature(out, a, n);
    let t = models_signature(out, b, m);
    if n > 0 {
        let before = models_signature(out, a, n - 1);
        let head = (if n > 1 {
            before + ","@
        } else {
            before
        }) + a[n - 1].name@;
        let tail = text::decimal(a[n - 1].id as nat);
        text::lemma_decimal_digits(a[n - 1].id as nat);
        assert(s =~= head.push(':') + tail);
        assert(s[head.len() as int] == ':');
        if m == 0 {
            assert(out.contains(':'));
        }
    }
    if m > 0 {
        let before = models_signature(out, b, m - 1);
        let head = (if m > 1 {
            before + ","@
        } else {
            before
        }) + b[m - 1].name@;
        let tail = text::decimal(b[m - 1].id as nat);
        text::lemma_decimal_digits(b[m - 1].id as nat);
        assert(t =~= head.push(':') + tail);
        assert(t[head.len() as int] == ':');
        if n == 0 {
            assert(out.contains(':'));
        }
    }
    if n > 0 && m > 0 {
        let p = models_signature(out, a, n - 1);
        let q = models_signature(out, b, m - 1);
        let x = a[n - 1].name@;
        let y = b[m - 1].name@;
        let hp = if n > 1 {
            p + ","@
        } else {
            p
        };
        let hq = if m > 1 {
            q + ","@
        } else {
            q
        };
        text::lemma_last_part(
            ':',
            hp + x,
            text::decimal(a[n - 1].id as nat),
            hq + y,
            text::decimal(b[m - 1].id as nat),
        );
        text::lemma_decimal_tells_apart(a[n - 1].id as nat, b[m - 1].id as nat);
        assert(hp + x == hq + y);
        if n > 1 && m > 1 {
            assert(hp + x =~= p.push(',') + x);
            assert(hq + y =~= q.push(',') + y);
            text::lemma_last_part(',', p, x, q, y);
            lemma_signature_read(out, a, b, n - 1, m - 1);
        } else if n > 1 {
            assert((hp + x)[p.len() as int] == ',');
            lemma_no_comma(out, y, p.len() as int);
        } else if m > 1 {
            assert((hq + y)[q.len() as int] == ',');
            lemma_no_comma(out, x, q.len() as int);
        } else {
            assert(x =~= (out + x).skip(out.len() as int));
            assert(y =~= (out + y).skip(out.len() as int));
        }
    }
}

proof fn lemma_no_comma(a: Seq<char>, b: Seq<char>, i: int)
    requires
        !a.contains(','),
        !b.contains(','),
        0 <= i < a.len() + b.len(),
    ensures
        (a + b)[i] != ',',
{
    if i < a.len() {
        assert(a.contains(a[i]));
    } else {
        assert(b.contains(b[i - a.len()]));
    }
}

/// Two sets have one signature exactly where they hold the same names and ids,
/// whatever order the models were given in.
pub proof fn signatures_tell_sets_apart(ms: Seq<LightingModel>, ns: Seq<LightingModel>)
    requires
        set_of(ms) is Ok,
        set_of(ns) is Ok,
        plainly_named(ms),
        plainly_named(ns),
    ensures
        set_signature(set_of(ms)->Ok_0) == set_signature(set_of(ns)->Ok_0) <==> (forall|
            name: Seq<char>,
            id: u32,
        | #[trigger] lists_model(ms, name, id) <==> lists_model(ns, name, id)),
{
    let a = set_of(ms)->Ok_0;
    let b = set_of(ns)->Ok_0;
    lemma_by_id_is_strict();
    sorting::lemma_sorted(ms, by_id());
    sorting::lemma_sorted(ns, by_id());
    sets_are_in_order(ms);
    sets_are_in_order(ns);
    lemma_same_models(a, ms);
    lemma_same_models(b, ns);
    if set_signature(a) == set_signature(b) {
        reveal_strlit("models=");
        lemma_signature_read("models="@, a, b, a.len() as int, b.len() as int);
        assert forall|name: Seq<char>, id: u32| #[trigger]
            lists_model(ms, name, id) <==> lists_model(ns, name, id) by {
            assert(lists_model(a, name, id) <==> lists_model(b, name, id)) by {
                if lists_model(a, name, id) {
                    let i = choose|i: int|
                        0 <= i < a.len() && (#[trigger] a[i]).name@ == name && a[i].id == id;
                    assert(b[i].name@ == name && b[i].id == id);
                }
                if lists_model(b, name, id) {
                    let i = choose|i: int|
                        0 <= i < b.len() && (#[trigger] b[i]).name@ == name && b[i].id == id;
                    assert(a[i].name@ == name && a[i].id == id);
                }
            }
        }
    }
    if forall|name: Seq<char>, id: u32| #[trigger]
        lists_model(ms, name, id) <==> lists_model(ns, name, id) {
        let x = named_ids(a);
        let y = named_ids(b);
        let less = |p: (Seq<char>, u32), q: (Seq<char>, u32)| p.1 < q.1;
        assert forall|p: (Seq<char>, u32)| x.contains(p) <==> y.contains(p) by {
            assert(lists_model(ms, p.0, p.1) <==> lists_model(ns, p.0, p.1));
            if x.contains(p) {
                let i = choose|i: int| 0 <= i < x.len() && x[i] == p;
                assert(a[i].name@ == p.0 && a[i].id == p.1);
                assert(lists_model(a, p.0, p.1));
                assert(lists_model(b, p.0, p.1));
                let j = choose|j: int|
                    0 <= j < b.len() && (#[trigger] b[j]).name@ == p.0 && b[j].id == p.1;
                assert(y[j] == p);
            }
            if y.contains(p) {
                let i = choose|i: int| 0 <= i < y.len() && y[i] == p;
                assert(b[i].name@ == p.0 && b[i].id == p.1);
                assert(lists_model(b, p.0, p.1));
                assert(lists_model(a, p.0, p.1));
                let j = choose|j: int|
                    0 <= j < a.len() && (#[trigger] a[j]).name@ == p.0 && a[j].id == p.1;
                assert(x[j] == p);
            }
        }
        lemma_ids_ascend(a);
        lemma_ids_ascend(b);
        sorting::lemma_order_is_unique(x, y, less);
        assert(a.len() == x.len() && b.len() == y.len());
        lemma_signature_of_names("models="@, a, b, a.len() as int);
    }
}

proof fn lemma_ids_ascend(s: Seq<LightingModel>)
    requires
        ids_ascend(s),
    ensures
        named_ids(s).no_duplicates(),
        forall|i: int, j: int|
            0 <= i < j < named_ids(s).len() ==> (#[trigger] named_ids(s)[i]).1 < (
            #[trigger] named_ids(s)[j]).1,
{
    let x = named_ids(s);
    assert forall|i: int, j: int| 0 <= i < j < x.len() implies (#[trigger] x[i]).1 < (
    #[trigger] x[j]).1 by {
        assert(s[i].id < s[j].id);
    }
    assert forall|i: int, j: int| 0 <= i < x.len() && 0 <= j < x.len() && i != j implies x[i]
        != x[j] by {
        if i < j {
            assert(x[i].1 < x[j].1);
        } else {
            assert(x[j].1 < x[i].1);
        }
    }
}

proof fn lemma_same_models(a: Seq<LightingModel>, b: Seq<LightingModel>)
    requires
        forall|m: LightingModel| #[trigger] a.contains(m) <==> b.contains(m),
        plainly_named(b),
    ensures
        plainly_named(a),
        forall|name: Seq<char>, id: u32| #[trigger]
            lists_model(a, name, id) <==> lists_model(b, name, id),
{
    assert forall|i: int| 0 <= i < a.len() implies !(#[trigger] a[i]).name@.contains(',')
        && !a[i].name@.contains(':') by {
        assert(a.contains(a[i]));
        let j = choose|j: int| 0 <= j < b.len() && b[j] == a[i];
        assert(b[j] == a[i]);
    }
    assert forall|name: Seq<char>, id: u32| #[trigger]
        lists_model(a, name, id) <==> lists_model(b, name, id) by {
        if lists_model(a, name, id) {
            let i = choose|i: int|
                0 <= i < a.len() && (#[trigger] a[i]).name@ == name && a[i].id == id;
            assert(a.contains(a[i]));
            let j = choose|j: int| 0 <= j < b.len() && b[j] == a[i];
            assert(b[j].name@ == name);
        }
        if lists_model(b, name, id) {
            let i = choose|i: int|
                0 <= i < b.len() && (#[trigger] b[i]).name@ == name && b[i].id == id;
            assert(b.contains(b[i]));
            assert(a.contains(b[i]));
            let j = choose|j: int| 0 <= j < a.len() && a[j] == b[i];
            assert(a[j].name@ == name);
        }
    }
}

/// The first id that a later model has too.
fn find_repeated_id(models: &Vec<LightingModel>) -> (r: Option<u32>)
    ensures
        r == repeated_id(models@, 0),
{
    let ghost s = models@;
    let mut i: usize = 0;
    while i < models.len()
        invariant
            i <= s.len(),
            s == models@,
            repeated_id(s, 0) == repeated_id(s, i as int),
        decreases s.len() - i,
    {
        let mut j: usize = i + 1;
        while j < models.len()
            invariant
                i < j <= s.len(),
                s == models@,
                repeated_id(s, 0) == repeated_id(s, i as int),
                forall|k: int| i < k < j ==> (#[trigger] s[k]).id != s[i as int].id,
            decreases s.len() - j,
        {
            if models[j].id == models[i].id {
                assert(s[j as int].id == s[i as int].id);
                return Some(models[i].id);
            }
            j += 1;
        }
        i += 1;
    }
    None
}

/// The first name that another model has too.
fn find_repeated_name(models: &Vec<LightingModel>) -> (r: Option<&'static str>)
    ensures
        text::opt_of(r) == repeated_name(models@, 0),
{
    let ghost s = models@;
    let mut i: usize = 0;
    while i < models.len()
        invariant
            i <= s.len(),
            s == models@,
            repeated_name(s, 0) == repeated_name(s, i as int),
        decreases s.len() - i,
    {
        let mut j: usize = 0;
        while j < models.len()
            invariant
                j <= s.len(),
                i < s.len(),
                s == models@,
                repeated_name(s, 0) == repeated_name(s, i as int),
                forall|k: int|
                    0 <= k < j && k != i ==> (#[trigger] s[k]).name@ != s[i as int].name@,
            decreases s.len() - j,
        {
            if j != i && same_text(models[j].name, models[i].name) {
                assert(s[j as int].name@ == s[i as int].name@);
                return Some(models[i].name);
            }
            j += 1;
        }
        i += 1;
    }
    None
}

impl LightingSet {
    #[verifier::type_invariant]
    spec fn holds(self) -> bool {
        self.models@.len() > 0 && ids_ascend(self.models@)
    }

    /// Enable models together. They come in the order of their ids, whatever
    /// the order they are given in.
    pub fn new(models: Vec<LightingModel>) -> (r: Result<Self, LightingError>)
        ensures
            match (r, set_of(models@)) {
                (Ok(set), Ok(s)) => set@ == s,
                (Err(e), Err(v)) => e@ == v,
                _ => false,
            },
    {
        let ghost given = models@;
        assert(text::seq_of(models@) =~= given);
        if models.len() == 0 {
            return Err(LightingError::Empty);
        }
        let less = |a: &LightingModel, b: &LightingModel| -> (c: bool)
            ensures
                c == by_id()(a@, b@),
            { a.id < b.id };
        let models = sort_stable(models, less, Ghost(by_id()));
        assert(text::seq_of(models@) =~= models@);
        match find_repeated_id(&models) {
            Some(id) => {
                return Err(LightingError::DuplicateId { id });
            },
            None => {},
        }
        match find_repeated_name(&models) {
            Some(name) => {
                return Err(LightingError::DuplicateName { name: name.to_owned() });
            },
            None => {},
        }
        proof {
            sets_are_in_order(given);
        }
        Ok(LightingSet { models })
    }

    /// One model, which needs no id to dispatch on.
    pub fn single(model: LightingModel) -> (r: Self)
        ensures
            r@ == seq![model],
    {
        let mut models: Vec<LightingModel> = Vec::new();
        models.push(model);
        assert(models@ =~= seq![model]);
        LightingSet { models }
    }

    /// The models, in the order of their ids.
    pub fn models(&self) -> (r: &Vec<LightingModel>)
        ensures
            r@ == self@,
            self@.len() > 0,
            ids_ascend(self@),
    {
        proof {
            use_type_invariant(self);
        }
        &self.models
    }

    /// The number of models.
    pub fn len(&self) -> (r: usize)
        ensures
            r == self@.len(),
            r > 0,
    {
        proof {
            use_type_invariant(self);
        }
        self.models.len()
    }

    /// Whether there are no models, which never is.
    pub fn is_empty(&self) -> (r: bool)
        ensures
            r == (self@.len() == 0),
            !r,
    {
        proof {
            use_type_invariant(self);
        }
        self.models.len() == 0
    }

    /// The model of an id.
    pub fn get(&self, id: u32) -> (r: Option<&LightingModel>)
        ensures
            text::opt_of(r) == lists::first_where(self@, model_of(id)),
    {
        let ghost s = self@;
        let ghost p = model_of(id);
        let mut i: usize = 0;
        assert(s.skip(0) =~= s);
        while i < self.models.len()
            invariant
                i <= s.len(),
                s == self.models@,
                p == model_of(id),
                lists::first_where(s, p) == lists::first_where(s.skip(i as int), p),
            decreases s.len() - i,
        {
            proof {
                lists::lemma_first_where_skip(s, p, i as int);
            }
            if self.models[i].id == id {
                return Some(&self.models[i]);
            }
            i += 1;
        }
        None
    }

    /// The model of a name.
    pub fn by_name(&self, name: &str) -> (r: Option<&LightingModel>)
        ensures
            text::opt_of(r) == lists::first_where(self@, model_named(name@)),
    {
        let ghost s = self@;
        let ghost p = model_named(name@);
        let mut i: usize = 0;
        assert(s.skip(0) =~= s);
        while i < self.models.len()
            invariant
                i <= s.len(),
                s == self.models@,
                p == model_named(name@),
                lists::first_where(s, p) == lists::first_where(s.skip(i as int), p),
            decreases s.len() - i,
        {
            proof {
                lists::lemma_first_where_skip(s, p, i as int);
            }
            if same_text(self.models[i].name, name) {
                return Some(&self.models[i]);
            }
            i += 1;
        }
        None
    }

    /// The model of the lowest id.
    pub fn default_model(&self) -> (r: &LightingModel)
        ensures
            *r == self@[0],
            forall|i: int| 0 < i < self@.len() ==> r.id < (#[trigger] self@[i]).id,
    {
        proof {
            use_type_invariant(self);
        }
        &self.models[0]
    }

    /// Whether fragments have to carry an id: more than one model is enabled.
    pub fn dispatches(&self) -> (r: bool)
        ensures
            r == (self@.len() > 1),
    {
        self.models.len() > 1
    }

    /// What the models ask the G-buffer to carry, in the order of their ids.
    pub fn extras(&self) -> (r: Vec<ModelExtra>)
        ensures
            r@ == extras_of(self@, self@.len() as int),
    {
        let ghost s = self@;
        let mut r: Vec<ModelExtra> = Vec::new();
        let mut i: usize = 0;
        while i < self.models.len()
            invariant
                i <= s.len(),
                s == self.models@,
                r@ == extras_of(s, i as int),
            decreases s.len() - i,
        {
            match self.models[i].extra {
                Some(e) => {
                    r.push(e);
                },
                None => {},
            }
            i += 1;
        }
        r
    }

    /// The targets of the G-buffer this set needs, in the order of their
    /// locations.
    pub fn gbuffer_layout(&self) -> (r: Vec<GBufferTarget>)
        ensures
            r@ == layout_of(self@),
    {
        let ghost s = self@;
        let base = abi::gbuffer_base_targets();
        let mut layout: Vec<GBufferTarget> = Vec::new();
        layout.push(base[0]);
        layout.push(base[1]);
        layout.push(base[2]);
        assert(layout@ =~= abi::gbuffer_base_targets()@);
        if self.dispatches() {
            layout.push(model_id_target());
        }
        let ghost start = layout@;
        let extras = self.extras();
        let mut i: usize = 0;
        while i < extras.len()
            invariant
                i <= extras@.len(),
                layout@ == start + Seq::new(i as nat, |j: int| extras@[j].target),
            decreases extras@.len() - i,
        {
            layout.push(extras[i].target);
            assert(layout@ =~= start + Seq::new((i + 1) as nat, |j: int| extras@[j].target));
            i += 1;
        }
        assert(layout@ =~= layout_of(s));
        layout
    }

    /// One line that tells two sets apart.
    pub fn signature(&self) -> (r: String)
        ensures
            r@ == set_signature(self@),
    {
        let ghost s = self@;
        let mut out = "models=".to_owned();
        let mut i: usize = 0;
        while i < self.models.len()
            invariant
                i <= s.len(),
                s == self.models@,
                out@ == models_signature("models="@, s, i as int),
            decreases s.len() - i,
        {
            if i > 0 {
                out.append(",");
            }
            out.append(self.models[i].name);
            out.append(":");
            push_number(&mut out, self.models[i].id as u64);
            i += 1;
        }
        out
    }

    /// A number of the set: equal sets have equal numbers.
    pub fn stable_id(&self) -> (r: u64)
        ensures
            r == wxsl::text_hash(set_signature(self@)),
    {
        let text = self.signature();
        hash_text(text.as_str())
    }
}

/// Every model that ships, in the order of their ids.
#[verifier::allow_in_spec]
pub fn default_models() -> [LightingModel; 4]
    returns
        ([
            LightingModel {
                id: 0,
                name: "lambert",
                module: "package::lighting::models::lambert",
                function: "lighting_lambert",
                extra: None,
                doc: "Diffuse-only Lambertian: radiance * albedo * max(dot(n, l), 0).",
            },
            LightingModel {
                id: 1,
                name: "phong",
                module: "package::lighting::models::phong",
                function: "lighting_phong",
                extra: None,
                doc: "Lambertian diffuse plus a Phong specular lobe from the roughness.",
            },
            LightingModel {
                id: 2,
                name: "pbr",
                module: "package::lighting::models::pbr",
                function: "lighting_pbr",
                extra: None,
                doc: "The Cook-Torrance GGX model the library has always shaded with.",
            },
            LightingModel {
                id: 3,
                name: "clearcoat",
                module: "package::lighting::models::clearcoat",
                function: "lighting_clearcoat",
                extra: Some(
                    ModelExtra {
                        target: GBufferTarget {
                            field: "clearcoat",
                            doc: "x = coat strength, y = coat roughness",
                            precision: GBufferPrecision::HighDynamicRangePair,
                        },
                        pack: "pack_clearcoat",
                    },
                ),
                doc: "PBR plus a second clear-coat lobe, asking for a G-buffer target.",
            },
        ]),
{
    [
        LightingModel {
            id: 0,
            name: "lambert",
            module: "package::lighting::models::lambert",
            function: "lighting_lambert",
            extra: None,
            doc: "Diffuse-only Lambertian: radiance * albedo * max(dot(n, l), 0).",
        },
        LightingModel {
            id: 1,
            name: "phong",
            module: "package::lighting::models::phong",
            function: "lighting_phong",
            extra: None,
            doc: "Lambertian diffuse plus a Phong specular lobe from the roughness.",
        },
        LightingModel {
            id: 2,
            name: "pbr",
            module: "package::lighting::models::pbr",
            function: "lighting_pbr",
            extra: None,
            doc: "The Cook-Torrance GGX model the library has always shaded with.",
        },
        LightingModel {
            id: 3,
            name: "clearcoat",
            module: "package::lighting::models::clearcoat",
            function: "lighting_clearcoat",
            extra: Some(
                ModelExtra {
                    target: GBufferTarget {
                        field: "clearcoat",
                        doc: "x = coat strength, y = coat roughness",
                        precision: GBufferPrecision::HighDynamicRangePair,
                    },
                    pack: "pack_clearcoat",
                },
            ),
            doc: "PBR plus a second clear-coat lobe, asking for a G-buffer target.",
        },
    ]
}

/// The id of the model that a material gets which names none.
pub const DEFAULT_MODEL_ID: u32 = 2;

/// The model of the id that a material gets which names none, and no other.
pub fn default_single_set() -> (r: LightingSet)
    ensures
        r@ == seq![default_models()[DEFAULT_MODEL_ID as int]],
        r@[0].id == DEFAULT_MODEL_ID,
{
    let models = default_models();
    LightingSet::single(models[DEFAULT_MODEL_ID as usize])
}

/// Every model that ships, enabled.
pub fn default_set() -> (r: Result<LightingSet, LightingError>)
    ensures
        match (r, set_of(default_models()@)) {
            (Ok(set), Ok(s)) => set@ == s,
            (Err(e), Err(v)) => e@ == v,
            _ => false,
        },
{
    let all = default_models();
    let mut models: Vec<LightingModel> = Vec::new();
    models.push(all[0]);
    models.push(all[1]);
    models.push(all[2]);
    models.push(all[3]);
    assert(models@ =~= default_models()@);
    LightingSet::new(models)
}

impl Default for LightingSet {
    fn default() -> (r: Self)
        ensures
            r@ == seq![default_models()[DEFAULT_MODEL_ID as int]],
    {
        default_single_set()
    }
}

// ---------------------------------------------------------------------------
// Features

/// Something a pipeline can carry in the G-buffer that no model asks for.
#[derive(Clone, Copy, Debug, PartialEq, Eq, Hash)]
pub struct Feature {
    /// Its name.
    pub name: &'static str,
    /// The macro a material turns it on with.
    pub macro_name: &'static str,
    /// The target it travels in.
    pub target: GBufferTarget,
}

/// Every feature that ships.
#[verifier::allow_in_spec]
pub fn features() -> [Feature; 1]
    returns
        ([
            Feature {
                name: "motion",
                macro_name: "wxsl_motion_vectors",
                target: GBufferTarget {
                    field: "motion",
                    doc: "xy = screen-space motion since the previous frame",
                    precision: GBufferPrecision::HighDynamicRangePair,
                },
            },
        ]),
{
    [
        Feature {
            name: "motion",
            macro_name: "wxsl_motion_vectors",
            target: GBufferTarget {
                field: "motion",
                doc: "xy = screen-space motion since the previous frame",
                precision: GBufferPrecision::HighDynamicRangePair,
            },
        },
    ]
}

/// What a channel of the G-buffer is there for.
#[derive(Clone, Copy, Debug, PartialEq, Eq, Hash)]
pub enum ChannelSource {
    /// A feature, by its name.
    Feature(&'static str),
}

impl ChannelSource {
    /// The name of what the channel is there for.
    pub fn name(&self) -> (r: &'static str)
        ensures
            r@ == source_name(*self),
    {
        match self {
            ChannelSource::Feature(name) => *name,
        }
    }
}

/// The name of what a channel is there for.
pub open spec fn source_name(s: ChannelSource) -> Seq<char> {
    match s {
        ChannelSource::Feature(name) => name@,
    }
}

/// A channel that a pipeline carries in the G-buffer.
#[derive(Clone, Copy, Debug, PartialEq, Eq, Hash)]
pub struct ChannelRequest {
    /// The target it travels in.
    pub target: GBufferTarget,
    /// What it is there for.
    pub source: ChannelSource,
}

/// Being the feature of this name.
pub open spec fn feature_named(name: Seq<char>) -> spec_fn(Feature) -> bool {
    |f: Feature| f.name@ == name
}

/// The channel of a feature.
pub open spec fn channel_of(f: Feature) -> ChannelRequest {
    ChannelRequest { target: f.target, source: ChannelSource::Feature(f.name) }
}

/// The channels of the first `n` of these features; the first that does not
/// ship is named.
pub open spec fn channels_of(names: Seq<Seq<char>>, n: int) -> Result<
    Seq<ChannelRequest>,
    LightingErrorView,
>
    decreases n,
{
    if n <= 0 {
        Ok(Seq::empty())
    } else {
        match channels_of(names, n - 1) {
            Err(e) => Err(e),
            Ok(before) => match lists::first_where(features()@, feature_named(names[n - 1])) {
                Some(f) => Ok(before.push(channel_of(f))),
                None => Err(LightingErrorView::UnknownFeature { name: names[n - 1] }),
            },
        }
    }
}

/// The channels of these features.
pub fn feature_requests(names: &[&str]) -> (r: Result<Vec<ChannelRequest>, LightingError>)
    ensures
        match (r, channels_of(text::seq_of(names@), names@.len() as int)) {
            (Ok(v), Ok(s)) => v@ == s,
            (Err(e), Err(v)) => e@ == v,
            _ => false,
        },
{
    let ghost s = text::seq_of(names@);
    let shipped = features();
    let mut requests: Vec<ChannelRequest> = Vec::new();
    let mut i: usize = 0;
    while i < names.len()
        invariant
            i <= s.len() == names@.len(),
            s == text::seq_of(names@),
            shipped@ == features()@,
            channels_of(s, i as int) == Ok::<Seq<ChannelRequest>, LightingErrorView>(requests@),
        decreases s.len() - i,
    {
        let name = names[i];
        assert(s[i as int] == name@);
        proof {
            reveal_with_fuel(lists::first_where, 2);
            assert(features()@.len() == 1);
        }
        if same_text(shipped[0].name, name) {
            requests.push(
                ChannelRequest {
                    target: shipped[0].target,
                    source: ChannelSource::Feature(shipped[0].name),
                },
            );
        } else {
            proof {
                lemma_unknown_feature(s, i as int, s.len() as int);
            }
            return Err(LightingError::UnknownFeature { name: name.to_owned() });
        }
        i += 1;
    }
    Ok(requests)
}

proof fn lemma_unknown_feature(names: Seq<Seq<char>>, i: int, n: int)
    requires
        0 <= i < n <= names.len(),
        channels_of(names, i) is Ok,
        lists::first_where(features()@, feature_named(names[i])) is None,
    ensures
        channels_of(names, n) == Err::<Seq<ChannelRequest>, LightingErrorView>(
            LightingErrorView::UnknownFeature { name: names[i] },
        ),
    decreases n,
{
    if n - 1 > i {
        lemma_unknown_feature(names, i, n - 1);
    }
}

// ---------------------------------------------------------------------------
// What a material is shaded with

/// What a material is shaded with: its model, the models enabled around it,
/// and the channels the pipeline carries besides.
#[derive(Debug, PartialEq)]
pub struct MaterialLighting {
    /// The models that the pipeline enables.
    pub set: LightingSet,
    /// The id of the material's own, which is one of them.
    pub model: u32,
    /// The channels that the pipeline carries besides.
    pub features: Vec<ChannelRequest>,
}

/// What a [`MaterialLighting`] stands for.
#[verifier::ext_equal]
pub struct MaterialLightingView {
    /// The models that the pipeline enables.
    pub set: Seq<LightingModel>,
    /// The id of the material's own.
    pub model: u32,
    /// The channels that the pipeline carries besides.
    pub features: Seq<ChannelRequest>,
}

impl View for MaterialLighting {
    type V = MaterialLightingView;

    open spec fn view(&self) -> MaterialLightingView {
        MaterialLightingView { set: self.set@, model: self.model, features: self.features@ }
    }
}

impl Clone for MaterialLighting {
    fn clone(&self) -> (r: Self)
        ensures
            r@ == self@,
    {
        MaterialLighting {
            set: self.set.clone(),
            model: self.model,
            features: copy_vec(&self.features),
        }
    }
}

impl MaterialLightingView {
    /// The material's model is one of those enabled.
    pub open spec fn enabled(self) -> bool {
        lists::first_where(self.set, model_of(self.model)) is Some
    }

    /// The material's model.
    pub open spec fn own(self) -> LightingModel {
        lists::first_where(self.set, model_of(self.model))->0
    }
}

/// The id of the model that a name stands for among those enabled. No name
/// stands for the model that ships as the default if it is enabled, and for
/// that of the lowest id otherwise.
pub open spec fn model_id_of(set: Seq<LightingModel>, name: Option<Seq<char>>) -> Result<
    u32,
    LightingErrorView,
> {
    match name {
        Some(name) => match lists::first_where(set, model_named(name)) {
            Some(m) => Ok(m.id),
            None => Err(LightingErrorView::UnknownModel { name }),
        },
        None => match lists::first_where(set, model_of(DEFAULT_MODEL_ID)) {
            Some(m) => Ok(m.id),
            None => Ok(set[0].id),
        },
    }
}

/// What a material that names a model is shaded with.
pub open spec fn lighting_for(set: Seq<LightingModel>, name: Option<Seq<char>>) -> Result<
    MaterialLightingView,
    LightingErrorView,
> {
    match model_id_of(set, name) {
        Ok(model) => Ok(MaterialLightingView { set, model, features: Seq::empty() }),
        Err(e) => Err(e),
    }
}

/// A model that is named or stood for is one of those enabled.
pub proof fn a_resolved_model_is_enabled(set: Seq<LightingModel>, name: Option<Seq<char>>)
    requires
        set.len() > 0,
        lighting_for(set, name) is Ok,
    ensures
        lighting_for(set, name)->Ok_0.enabled(),
{
    let model = model_id_of(set, name)->Ok_0;
    lists::lemma_first_where(set, model_of(model));
    match name {
        Some(name) => {
            lists::lemma_first_where(set, model_named(name));
            let m = lists::first_where(set, model_named(name))->0;
            let i = choose|i: int| 0 <= i < set.len() && set[i] == m;
            assert(model_of(model)(set[i]));
        },
        None => {
            lists::lemma_first_where(set, model_of(DEFAULT_MODEL_ID));
            match lists::first_where(set, model_of(DEFAULT_MODEL_ID)) {
                Some(m) => {
                    let i = choose|i: int| 0 <= i < set.len() && set[i] == m;
                    assert(model_of(model)(set[i]));
                },
                None => {
                    assert(model_of(model)(set[0]));
                },
            }
        },
    }
}

impl MaterialLighting {
    /// What a material is shaded with that names a model, or none.
    pub fn resolve(set: &LightingSet, name: Option<&str>) -> (r: Result<Self, LightingError>)
        ensures
            match (r, lighting_for(set@, text::opt_of(name))) {
                (Ok(l), Ok(v)) => l@ == v && l@.enabled(),
                (Err(e), Err(v)) => e@ == v,
                _ => false,
            },
    {
        proof {
            use_type_invariant(set);
            if lighting_for(set@, text::opt_of(name)) is Ok {
                a_resolved_model_is_enabled(set@, text::opt_of(name));
            }
        }
        let model: u32 = match name {
            Some(name) => match set.by_name(name) {
                Some(m) => m.id,
                None => {
                    return Err(LightingError::UnknownModel { name: name.to_owned() });
                },
            },
            None => match set.get(DEFAULT_MODEL_ID) {
                Some(m) => m.id,
                None => set.default_model().id,
            },
        };
        let r = MaterialLighting { set: set.clone(), model, features: Vec::new() };
        assert(r@.features =~= Seq::empty());
        Ok(r)
    }

    /// The same, under a pipeline that carries these channels.
    pub fn with_features(self, features: Vec<ChannelRequest>) -> (r: Self)
        ensures
            r@ == (MaterialLightingView { features: features@, ..self@ }),
    {
        MaterialLighting { set: self.set, model: self.model, features }
    }

    /// The material's model.
    pub fn model(&self) -> (r: &LightingModel)
        requires
            self@.enabled(),
        ensures
            *r == self@.own(),
    {
        match self.set.get(self.model) {
            Some(m) => m,
            None => self.set.default_model(),
        }
    }

    /// The models that the pipeline enables.
    pub fn set(&self) -> (r: &LightingSet)
        ensures
            r@ == self@.set,
    {
        &self.set
    }

    /// The channels that the pipeline carries besides.
    pub fn features(&self) -> (r: &Vec<ChannelRequest>)
        ensures
            r@ == self@.features,
    {
        &self.features
    }
}

/// What a material is shaded with where nothing is said.
pub open spec fn default_lighting() -> MaterialLightingView {
    MaterialLightingView {
        set: seq![default_models()[DEFAULT_MODEL_ID as int]],
        model: DEFAULT_MODEL_ID,
        features: Seq::empty(),
    }
}

impl Default for MaterialLighting {
    fn default() -> (r: Self)
        ensures
            r@ == default_lighting(),
            r@.enabled(),
    {
        let r = MaterialLighting {
            set: default_single_set(),
            model: DEFAULT_MODEL_ID,
            features: Vec::new(),
        };
        proof {
            assert(r@ =~= default_lighting());
            reveal_with_fuel(lists::first_where, 2);
            assert(model_of(DEFAULT_MODEL_ID)(r@.set[0]));
        }
        r
    }
}

// ---------------------------------------------------------------------------
// Generated shaders

/// A generated piece of source, and what it imports.
#[derive(Clone, Debug, PartialEq)]
pub struct GeneratedLighting {
    /// The source, without its `import` lines.
    pub source: String,
    /// The modules and items it imports, each once.
    pub imports: Vec<(&'static str, &'static str)>,
}

/// What a [`GeneratedLighting`] stands for.
#[verifier::ext_equal]
pub struct GeneratedLightingView {
    /// The source, without its `import` lines.
    pub source: Seq<char>,
    /// The modules and items it imports, each once.
    pub imports: Seq<(Seq<char>, Seq<char>)>,
}

impl View for GeneratedLighting {
    type V = GeneratedLightingView;

    open spec fn view(&self) -> GeneratedLightingView {
        GeneratedLightingView { source: self.source@, imports: text::seq_of(self.imports@) }
    }
}

/// How the generated shading function picks a model.
#[derive(Debug, PartialEq)]
pub enum Dispatch {
    /// It calls one model.
    Direct(LightingModel),
    /// It switches over an id read from the G-buffer.
    Switch(LightingSet),
}

/// What a [`Dispatch`] stands for.
pub enum DispatchView {
    /// It calls one model.
    Direct(LightingModel),
    /// It switches over an id read from the G-buffer.
    Switch(Seq<LightingModel>),
}

impl View for Dispatch {
    type V = DispatchView;

    open spec fn view(&self) -> DispatchView {
        match self {
            Dispatch::Direct(m) => DispatchView::Direct(*m),
            Dispatch::Switch(s) => DispatchView::Switch(s@),
        }
    }
}

/// What every shading function imports.
pub open spec fn shading_imports() -> Seq<(Seq<char>, Seq<char>)> {
    seq![
        (abi::SURFACE_MODULE@, abi::SURFACE_STRUCT@),
        (abi::SURFACE_MODULE@, abi::CONTEXT_STRUCT@),
        ("package::wxsl::bindings"@, "sample_light"@),
        ("package::wxsl::bindings"@, "scene"@),
        ("package::wxsl::bindings"@, "WXSL_MAX_LIGHTS"@),
        ("package::wxsl::bindings"@, "LightSample"@),
        (abi::SHADOW_MODULE@, abi::SHADOW_FACTOR_FN@),
        ("package::lighting::ambient_environment"@, "ambient_environment"@),
        ("package::color::linear_to_srgb"@, "linear_to_srgb"@),
        ("package::color::tonemap_filmic"@, "tonemap_filmic"@),
    ]
}

/// These imports, and the functions of the first `n` models.
pub open spec fn with_functions(
    imports: Seq<(Seq<char>, Seq<char>)>,
    s: Seq<LightingModel>,
    n: int,
) -> Seq<(Seq<char>, Seq<char>)>
    decreases n,
{
    if n <= 0 {
        imports
    } else {
        with_functions(imports, s, n - 1).push((s[n - 1].module@, s[n - 1].function@))
    }
}

/// What the shading function that picks a model so imports.
pub open spec fn dispatch_imports(d: DispatchView) -> Seq<(Seq<char>, Seq<char>)> {
    match d {
        DispatchView::Direct(m) => {
            let own = shading_imports().push((m.module@, m.function@));
            match m.extra {
                Some(e) => own.push((m.module@, e.pack@)),
                None => own,
            }
        },
        DispatchView::Switch(s) => with_functions(shading_imports(), s, s.len() as int),
    }
}

/// The line between the parts of generated source.
pub open spec fn rule_text() -> Seq<char> {
    "// ---------------------------------------------------------------------------\n"@
}

/// What every shading function starts with.
pub open spec fn shading_header() -> Seq<char> {
    rule_text() + "// Lighting: generated by `wxsl_core::lighting` from the enabled models.\n"@
        + "// Do not edit: change the registry or the model modules instead.\n"@ + rule_text() + "\n"@
}

/// The macros that the shading function honours, with the values they start
/// from.
pub open spec fn shading_macros(out: Seq<char>) -> Seq<char> {
    out + "@macro const "@ + abi::FEATURE_TONEMAP@ + ": bool = true;\n"@ + "@macro const "@
        + abi::FEATURE_DEBUG_NORMALS@ + ": bool = false;\n"@ + "@macro const "@
        + abi::FEATURE_RECEIVE_SHADOWS@ + ": bool = true;\n\n"@
}

/// The head of the function that contributes one light.
pub open spec fn dispatch_head(out: Seq<char>) -> Seq<char> {
    out + "fn "@ + abi::LIGHTING_DISPATCH_FN@ + "(surface: "@ + abi::SURFACE_STRUCT@ + ", ctx: "@
        + abi::CONTEXT_STRUCT@ + ", light: LightSample, "@
}

/// The function that contributes one light through one model.
pub open spec fn direct_text(out: Seq<char>, m: LightingModel) -> Seq<char> {
    dispatch_head(out) + "extra: vec4f) -> vec3f {\n    return "@ + m.function@
        + "(surface, ctx, light, extra);\n}\n\n"@
}

/// The fields that the first `n` models ask for.
pub open spec fn extra_fields(out: Seq<char>, extras: Seq<ModelExtra>, n: int) -> Seq<char>
    decreases n,
{
    if n <= 0 {
        out
    } else {
        extra_fields(out, extras, n - 1) + "    "@ + extras[n - 1].target.field@ + ": "@
            + extras[n - 1].target.precision.field_type()@ + ",\n"@
    }
}

/// What a model is handed as its extra, widened to four channels.
pub open spec fn handed_extra(out: Seq<char>, m: LightingModel) -> Seq<char> {
    match m.extra {
        Some(e) => if e.target.precision.channels() == 1 {
            out + "vec4f(extras."@ + e.target.field@ + ", 0.0, 0.0, 0.0)"@
        } else if e.target.precision.channels() == 2 {
            out + "vec4f(extras."@ + e.target.field@ + ", 0.0, 0.0)"@
        } else {
            out + "extras."@ + e.target.field@
        },
        None => out + "vec4f(0.0)"@,
    }
}

/// The arms of the first `n` models.
pub open spec fn switch_arms(out: Seq<char>, s: Seq<LightingModel>, n: int) -> Seq<char>
    decreases n,
{
    if n <= 0 {
        out
    } else {
        handed_extra(
            switch_arms(out, s, n - 1) + "        case "@ + text::decimal(s[n - 1].id as nat)
                + "u: { return "@ + s[n - 1].function@ + "(surface, ctx, light, "@,
            s[n - 1],
        ) + "); }\n"@
    }
}

/// The function that contributes one light through the model of an id.
pub open spec fn switch_text(out: Seq<char>, s: Seq<LightingModel>) -> Seq<char> {
    let extras = extras_of(s, s.len() as int);
    let fields = extra_fields(out + "struct ModelExtras {\n"@, extras, extras.len() as int)
        + "}\n\n"@;
    switch_arms(
        dispatch_head(fields)
            + "extras: ModelExtras, model_id: u32) -> vec3f {\n    switch model_id {\n"@,
        s,
        s.len() as int,
    ) + "        default: { return vec3f(0.0); }\n    }\n}\n\n"@
}

/// The function that contributes one light.
pub open spec fn dispatch_text(out: Seq<char>, d: DispatchView) -> Seq<char> {
    match d {
        DispatchView::Direct(m) => direct_text(out, m),
        DispatchView::Switch(s) => switch_text(out, s),
    }
}

/// What the shading function takes besides the surface and the context.
pub open spec fn shading_params(d: DispatchView) -> Seq<char> {
    match d {
        DispatchView::Direct(_) => ""@,
        DispatchView::Switch(_) => ", extras: ModelExtras, model_id: u32"@,
    }
}

/// What the shading function works out once, before the lights.
pub open spec fn extra_declared(out: Seq<char>, d: DispatchView) -> Seq<char> {
    match d {
        DispatchView::Direct(m) => match m.extra {
            Some(e) => out + "    let model_extra = "@ + e.pack@ + "(surface);\n"@,
            None => out + "    let model_extra = vec4f(0.0);\n"@,
        },
        DispatchView::Switch(_) => out,
    }
}

/// What the shading function hands on for each light.
pub open spec fn dispatch_args(d: DispatchView) -> Seq<char> {
    match d {
        DispatchView::Direct(_) => ", model_extra"@,
        DispatchView::Switch(_) => ", extras, model_id"@,
    }
}

/// The shading function: ambient light, every light's contribution, exposure
/// and tone mapping.
pub open spec fn shade_fn_text(out: Seq<char>, d: DispatchView) -> Seq<char> {
    extra_declared(
        out + "fn "@ + abi::SHADE_SURFACE_FN@ + "(surface: "@ + abi::SURFACE_STRUCT@ + ", ctx: "@
            + abi::CONTEXT_STRUCT@ + shading_params(d) + ") -> vec4f {\n"@,
        d,
    ) + "    @if("@ + abi::FEATURE_DEBUG_NORMALS@ + ") {\n"@
        + "        return vec4f(surface.normal * 0.5 + vec3f(0.5), 1.0);\n    }\n"@ + "    @if(!"@
        + abi::FEATURE_DEBUG_NORMALS@ + ") {\n"@
        + "        var color = ambient_environment(surface, ctx) + surface.emissive;\n"@
        + "        for (var i = 0u; i < min(scene.light_count, WXSL_MAX_LIGHTS); i += 1u) {\n"@
        + "            var light = sample_light(i, ctx.world_position);\n"@ + "            @if("@
        + abi::FEATURE_RECEIVE_SHADOWS@ + ") {\n                light.radiance *= "@
        + abi::SHADOW_FACTOR_FN@ + "(i, ctx.world_position, surface.normal);\n            }\n"@
        + "            color += "@ + abi::LIGHTING_DISPATCH_FN@ + "(surface, ctx, light"@
        + dispatch_args(d) + ");\n        }\n"@ + "        color *= scene.exposure;\n        @if("@
        + abi::FEATURE_TONEMAP@ + ") {\n            color = tonemap_filmic(color);\n        }\n"@
        + "        return vec4f(linear_to_srgb(color), surface.alpha);\n    }\n}\n"@
}

/// The shading function and what it rests on.
pub open spec fn shading_source(d: DispatchView, declare_macros: bool) -> Seq<char> {
    shade_fn_text(
        dispatch_text(
            if declare_macros {
                shading_macros(shading_header())
            } else {
                shading_header()
            },
            d,
        ),
        d,
    )
}

/// The shading function that picks a model so, and what it imports.
pub open spec fn shading_for(d: DispatchView, declare_macros: bool) -> GeneratedLightingView {
    GeneratedLightingView {
        source: shading_source(d, declare_macros),
        imports: lists::distinct(dispatch_imports(d)),
    }
}

/// Whether an import is in a list.
fn has_import(
    imports: &Vec<(&'static str, &'static str)>,
    module: &'static str,
    item: &'static str,
) -> (r: bool)
    ensures
        r == text::seq_of(imports@).contains((module@, item@)),
{
    let ghost s = text::seq_of(imports@);
    let mut i: usize = 0;
    while i < imports.len()
        invariant
            i <= s.len() == imports@.len(),
            s == text::seq_of(imports@),
            forall|j: int| 0 <= j < i ==> #[trigger] s[j] != (module@, item@),
        decreases s.len() - i,
    {
        assert(s[i as int] == imports@[i as int]@);
        if same_text(imports[i].0, module) && same_text(imports[i].1, item) {
            assert(s[i as int] == (module@, item@));
            return true;
        }
        i += 1;
    }
    false
}

/// Add an import that is not there yet.
fn add_import(
    imports: &mut Vec<(&'static str, &'static str)>,
    Ghost(all): Ghost<Seq<(Seq<char>, Seq<char>)>>,
    module: &'static str,
    item: &'static str,
)
    requires
        text::seq_of(old(imports)@) == lists::distinct(all),
    ensures
        text::seq_of(final(imports)@) == lists::distinct(all.push((module@, item@))),
{
    let ghost before = imports@;
    if !has_import(imports, module, item) {
        imports.push((module, item));
        assert(text::seq_of(imports@) =~= text::seq_of(before).push((module@, item@)));
    }
    assert(all.push((module@, item@)).drop_last() =~= all);
}

/// What the shading function that picks a model so imports.
#[verifier::rlimit(40)]
fn collect_imports(dispatch: &Dispatch) -> (r: Vec<(&'static str, &'static str)>)
    ensures
        text::seq_of(r@) == lists::distinct(dispatch_imports(dispatch@)),
{
    let ghost g = shading_imports();
    let mut list: Vec<(&'static str, &'static str)> = Vec::new();
    assert(text::seq_of(list@) =~= lists::distinct(g.take(0)));
    add_import(&mut list, Ghost(g.take(0)), abi::SURFACE_MODULE, abi::SURFACE_STRUCT);
    assert(g.take(1) =~= g.take(0).push(g[0]));
    add_import(&mut list, Ghost(g.take(1)), abi::SURFACE_MODULE, abi::CONTEXT_STRUCT);
    assert(g.take(2) =~= g.take(1).push(g[1]));
    add_import(&mut list, Ghost(g.take(2)), "package::wxsl::bindings", "sample_light");
    assert(g.take(3) =~= g.take(2).push(g[2]));
    add_import(&mut list, Ghost(g.take(3)), "package::wxsl::bindings", "scene");
    assert(g.take(4) =~= g.take(3).push(g[3]));
    add_import(&mut list, Ghost(g.take(4)), "package::wxsl::bindings", "WXSL_MAX_LIGHTS");
    assert(g.take(5) =~= g.take(4).push(g[4]));
    add_import(&mut list, Ghost(g.take(5)), "package::wxsl::bindings", "LightSample");
    assert(g.take(6) =~= g.take(5).push(g[5]));
    add_import(&mut list, Ghost(g.take(6)), abi::SHADOW_MODULE, abi::SHADOW_FACTOR_FN);
    assert(g.take(7) =~= g.take(6).push(g[6]));
    add_import(
        &mut list,
        Ghost(g.take(7)),
        "package::lighting::ambient_environment",
        "ambient_environment",
    );
    assert(g.take(8) =~= g.take(7).push(g[7]));
    add_import(
        &mut list,
        Ghost(g.take(8)),
        "package::color::linear_to_srgb",
        "linear_to_srgb",
    );
    assert(g.take(9) =~= g.take(8).push(g[8]));
    add_import(
        &mut list,
        Ghost(g.take(9)),
        "package::color::tonemap_filmic",
        "tonemap_filmic",
    );
    assert(g.take(10) =~= g.take(9).push(g[9]));
    assert(g.take(10) =~= g);
    match dispatch {
        Dispatch::Direct(m) => {
            add_import(&mut list, Ghost(g), m.module, m.function);
            match m.extra {
                Some(e) => {
                    add_import(
                        &mut list,
                        Ghost(g.push((m.module@, m.function@))),
                        m.module,
                        e.pack,
                    );
                },
                None => {},
            }
        },
        Dispatch::Switch(set) => {
            let models = set.models();
            let ghost s = set@;
            let mut i: usize = 0;
            while i < models.len()
                invariant
                    i <= s.len(),
                    s == models@,
                    text::seq_of(list@) == lists::distinct(with_functions(g, s, i as int)),
                decreases s.len() - i,
            {
                add_import(
                    &mut list,
                    Ghost(with_functions(g, s, i as int)),
                    models[i].module,
                    models[i].function,
                );
                i += 1;
            }
        },
    }
    list
}

/// Write the head of the function that contributes one light.
fn push_dispatch_head(out: &mut String)
    ensures
        final(out)@ == dispatch_head(old(out)@),
{
    out.append("fn ");
    out.append(abi::LIGHTING_DISPATCH_FN);
    out.append("(surface: ");
    out.append(abi::SURFACE_STRUCT);
    out.append(", ctx: ");
    out.append(abi::CONTEXT_STRUCT);
    out.append(", light: LightSample, ");
}

/// Write the fields that models ask for.
fn push_extra_fields(out: &mut String, extras: &Vec<ModelExtra>)
    ensures
        final(out)@ == extra_fields(old(out)@, extras@, extras@.len() as int),
{
    let ghost start = out@;
    let mut i: usize = 0;
    while i < extras.len()
        invariant
            i <= extras@.len(),
            out@ == extra_fields(start, extras@, i as int),
        decreases extras@.len() - i,
    {
        out.append("    ");
        out.append(extras[i].target.field);
        out.append(": ");
        out.append(extras[i].target.precision.field_type());
        out.append(",\n");
        i += 1;
    }
}

/// Write what a model is handed as its extra.
fn push_handed_extra(out: &mut String, m: &LightingModel)
    ensures
        final(out)@ == handed_extra(old(out)@, *m),
{
    match m.extra {
        Some(e) => {
            let channels: u32 = e.target.precision.channels();
            if channels == 1 {
                out.append("vec4f(extras.");
                out.append(e.target.field);
                out.append(", 0.0, 0.0, 0.0)");
            } else if channels == 2 {
                out.append("vec4f(extras.");
                out.append(e.target.field);
                out.append(", 0.0, 0.0)");
            } else {
                out.append("extras.");
                out.append(e.target.field);
            }
        },
        None => {
            out.append("vec4f(0.0)");
        },
    }
}

/// Write the function that contributes one light through the model of an id.
fn push_switch(out: &mut String, set: &LightingSet)
    ensures
        final(out)@ == switch_text(old(out)@, set@),
{
    let ghost s = set@;
    out.append("struct ModelExtras {\n");
    let extras = set.extras();
    push_extra_fields(out, &extras);
    out.append("}\n\n");
    push_dispatch_head(out);
    out.append("extras: ModelExtras, model_id: u32) -> vec3f {\n    switch model_id {\n");
    let ghost start = out@;
    let models = set.models();
    let mut i: usize = 0;
    while i < models.len()
        invariant
            i <= s.len(),
            s == models@,
            out@ == switch_arms(start, s, i as int),
        decreases s.len() - i,
    {
        out.append("        case ");
        push_number(out, models[i].id as u64);
        out.append("u: { return ");
        out.append(models[i].function);
        out.append("(surface, ctx, light, ");
        push_handed_extra(out, &models[i]);
        out.append("); }\n");
        i += 1;
    }
    out.append("        default: { return vec3f(0.0); }\n    }\n}\n\n");
}

/// Write the function that contributes one light.
fn push_dispatch(out: &mut String, dispatch: &Dispatch)
    ensures
        final(out)@ == dispatch_text(old(out)@, dispatch@),
{
    match dispatch {
        Dispatch::Direct(m) => {
            push_dispatch_head(out);
            out.append("extra: vec4f) -> vec3f {\n    return ");
            out.append(m.function);
            out.append("(surface, ctx, light, extra);\n}\n\n");
        },
        Dispatch::Switch(set) => {
            push_switch(out, set);
        },
    }
}

/// Write the shading function.
fn push_shade_fn(out: &mut String, dispatch: &Dispatch)
    ensures
        final(out)@ == shade_fn_text(old(out)@, dispatch@),
{
    out.append("fn ");
    out.append(abi::SHADE_SURFACE_FN);
    out.append("(surface: ");
    out.append(abi::SURFACE_STRUCT);
    out.append(", ctx: ");
    out.append(abi::CONTEXT_STRUCT);
    let args = match dispatch {
        Dispatch::Direct(_) => ", model_extra",
        Dispatch::Switch(_) => ", extras, model_id",
    };
    match dispatch {
        Dispatch::Direct(_) => {
            out.append("");
        },
        Dispatch::Switch(_) => {
            out.append(", extras: ModelExtras, model_id: u32");
        },
    }
    out.append(") -> vec4f {\n");
    match dispatch {
        Dispatch::Direct(m) => match m.extra {
            Some(e) => {
                out.append("    let model_extra = ");
                out.append(e.pack);
                out.append("(surface);\n");
            },
            None => {
                out.append("    let model_extra = vec4f(0.0);\n");
            },
        },
        Dispatch::Switch(_) => {},
    }
    out.append("    @if(");
    out.append(abi::FEATURE_DEBUG_NORMALS);
    out.append(") {\n");
    out.append("        return vec4f(surface.normal * 0.5 + vec3f(0.5), 1.0);\n    }\n");
    out.append("    @if(!");
    out.append(abi::FEATURE_DEBUG_NORMALS);
    out.append(") {\n");
    out.append("        var color = ambient_environment(surface, ctx) + surface.emissive;\n");
    out.append(
        "        for (var i = 0u; i < min(scene.light_count, WXSL_MAX_LIGHTS); i += 1u) {\n",
    );
    out.append("            var light = sample_light(i, ctx.world_position);\n");
    out.append("            @if(");
    out.append(abi::FEATURE_RECEIVE_SHADOWS);
    out.append(") {\n                light.radiance *= ");
    out.append(abi::SHADOW_FACTOR_FN);
    out.append("(i, ctx.world_position, surface.normal);\n            }\n");
    out.append("            color += ");
    out.append(abi::LIGHTING_DISPATCH_FN);
    out.append("(surface, ctx, light");
    out.append(args);
    out.append(");\n        }\n");
    out.append("        color *= scene.exposure;\n        @if(");
    out.append(abi::FEATURE_TONEMAP);
    out.append(") {\n            color = tonemap_filmic(color);\n        }\n");
    out.append("        return vec4f(linear_to_srgb(color), surface.alpha);\n    }\n}\n");
}

/// Generate the shading function that picks a model so, with the macros it
/// honours declared.
pub fn shade_surface(dispatch: &Dispatch) -> (r: GeneratedLighting)
    ensures
        r@ == shading_for(dispatch@, true),
{
    shade_surface_with(dispatch, true)
}

/// Generate the shading function that picks a model so. A module that declares
/// the macros itself takes it without their declarations.
pub fn shade_surface_with(dispatch: &Dispatch, declare_macros: bool) -> (r: GeneratedLighting)
    ensures
        r@ == shading_for(dispatch@, declare_macros),
{
    let rule = "// ---------------------------------------------------------------------------\n";
    let mut out = rule.to_owned();
    out.append("// Lighting: generated by `wxsl_core::lighting` from the enabled models.\n");
    out.append("// Do not edit: change the registry or the model modules instead.\n");
    out.append(rule);
    out.append("\n");
    if declare_macros {
        out.append("@macro const ");
        out.append(abi::FEATURE_TONEMAP);
        out.append(": bool = true;\n");
        out.append("@macro const ");
        out.append(abi::FEATURE_DEBUG_NORMALS);
        out.append(": bool = false;\n");
        out.append("@macro const ");
        out.append(abi::FEATURE_RECEIVE_SHADOWS);
        out.append(": bool = true;\n\n");
    }
    push_dispatch(&mut out, dispatch);
    push_shade_fn(&mut out, dispatch);
    GeneratedLighting { source: out, imports: collect_imports(dispatch) }
}

// ---------------------------------------------------------------------------
// The G-buffer

/// The struct's fields for the first `n` targets.
pub open spec fn target_fields(out: Seq<char>, layout: Seq<GBufferTarget>, n: int) -> Seq<char>
    decreases n,
{
    if n <= 0 {
        out
    } else {
        target_fields(out, layout, n - 1) + "    // "@ + layout[n - 1].doc@ + "\n    @location("@
            + text::decimal((n - 1) as nat) + ") "@ + layout[n - 1].field@ + ": "@
            + layout[n - 1].precision.field_type()@ + ",\n"@
    }
}

/// The struct of a G-buffer: one field for each target, at the location that
/// is its place in the layout.
pub open spec fn gbuffer_struct_text(layout: Seq<GBufferTarget>) -> Seq<char> {
    target_fields("struct "@ + abi::GBUFFER_STRUCT@ + " {\n"@, layout, layout.len() as int)
        + "}\n"@
}

/// Generate the struct of a G-buffer.
pub fn gbuffer_struct(layout: &[GBufferTarget]) -> (r: String)
    ensures
        r@ == gbuffer_struct_text(layout@),
{
    let mut out = "struct ".to_owned();
    out.append(abi::GBUFFER_STRUCT);
    out.append(" {\n");
    let ghost start = out@;
    let mut i: usize = 0;
    while i < layout.len()
        invariant
            i <= layout@.len(),
            out@ == target_fields(start, layout@, i as int),
        decreases layout@.len() - i,
    {
        out.append("    // ");
        out.append(layout[i].doc);
        out.append("\n    @location(");
        push_number(&mut out, i as u64);
        out.append(") ");
        out.append(layout[i].field);
        out.append(": ");
        out.append(layout[i].precision.field_type());
        out.append(",\n");
        i += 1;
    }
    out.append("}\n");
    out
}

/// What a target that every G-buffer has is filled with.
pub open spec fn base_packing(field: Seq<char>) -> Option<Seq<char>> {
    if field == "base_color"@ {
        Some("vec4f(surface.base_color, saturate(surface.metallic))"@)
    } else if field == "normal"@ {
        Some("vec4f(normalize(surface.normal), saturate(surface.roughness))"@)
    } else if field == "emissive"@ {
        Some("vec4f(surface.emissive, saturate(surface.occlusion))"@)
    } else {
        None
    }
}

/// Whether a target is the one that a model asks for.
pub open spec fn is_own_target(m: LightingModel, field: Seq<char>) -> bool {
    match m.extra {
        Some(e) => e.target.field@ == field,
        None => false,
    }
}

/// The leading channels of four, as many as a target has.
pub open spec fn leading_channels(channels: u32) -> Seq<char> {
    if channels == 1 {
        ".x"@
    } else if channels == 2 {
        ".xy"@
    } else {
        ""@
    }
}

/// Nothing, in as many channels as a target has.
pub open spec fn zero_channels(channels: u32) -> Seq<char> {
    if channels == 1 {
        "0.0"@
    } else if channels == 2 {
        "vec2f(0.0)"@
    } else {
        "vec4f(0.0)"@
    }
}

/// What a material of a model fills a target with. What another model asked
/// for is zeroed.
pub open spec fn packed_value(out: Seq<char>, m: LightingModel, t: GBufferTarget) -> Seq<char> {
    match base_packing(t.field@) {
        Some(expr) => out + expr,
        None => if t.field@ == MODEL_ID_FIELD@ {
            out + "f32(model_id) / "@ + text::decimal(MODEL_ID_SCALE as nat)
        } else if is_own_target(m, t.field@) {
            out + m.extra->0.pack@ + "(surface)"@ + leading_channels(t.precision.channels())
        } else {
            out + zero_channels(t.precision.channels())
        },
    }
}

/// The lines that fill the first `n` targets.
pub open spec fn packed_lines(
    out: Seq<char>,
    m: LightingModel,
    layout: Seq<GBufferTarget>,
    n: int,
) -> Seq<char>
    decreases n,
{
    if n <= 0 {
        out
    } else {
        packed_value(
            packed_lines(out, m, layout, n - 1) + "    out."@ + layout[n - 1].field@ + " = "@,
            m,
            layout[n - 1],
        ) + ";\n"@
    }
}

/// What filling the first `n` targets imports.
pub open spec fn packed_imports(m: LightingModel, layout: Seq<GBufferTarget>, n: int) -> Seq<
    (Seq<char>, Seq<char>),
>
    decreases n,
{
    if n <= 0 {
        Seq::empty()
    } else {
        let before = packed_imports(m, layout, n - 1);
        let field = layout[n - 1].field@;
        if base_packing(field) is None && field != MODEL_ID_FIELD@ && is_own_target(m, field) {
            before.push((m.module@, m.extra->0.pack@))
        } else {
            before
        }
    }
}

/// The head of the function that fills a G-buffer.
pub open spec fn pack_head(out: Seq<char>, dispatches: bool) -> Seq<char> {
    out + "\nfn "@ + abi::PACK_GBUFFER_FN@ + "(surface: "@ + abi::SURFACE_STRUCT@ + (
    if dispatches {
        ", model_id: u32"@
    } else {
        ""@
    }) + ") -> "@ + abi::GBUFFER_STRUCT@ + " {\n    var out: "@ + abi::GBUFFER_STRUCT@ + ";\n"@
}

/// The G-buffer of a set and the function by which a material of a model
/// fills it, with what it imports.
pub open spec fn packing_for(m: LightingModel, s: Seq<LightingModel>) -> GeneratedLightingView {
    let layout = layout_of(s);
    GeneratedLightingView {
        source: packed_lines(
            pack_head(gbuffer_struct_text(layout), s.len() > 1),
            m,
            layout,
            layout.len() as int,
        ) + "    return out;\n}\n"@,
        imports: lists::distinct(packed_imports(m, layout, layout.len() as int)),
    }
}

/// What a target that every G-buffer has is filled with.
fn base_pack(field: &str) -> (r: Option<&'static str>)
    ensures
        text::opt_of(r) == base_packing(field@),
{
    if same_text(field, "base_color") {
        Some("vec4f(surface.base_color, saturate(surface.metallic))")
    } else if same_text(field, "normal") {
        Some("vec4f(normalize(surface.normal), saturate(surface.roughness))")
    } else if same_text(field, "emissive") {
        Some("vec4f(surface.emissive, saturate(surface.occlusion))")
    } else {
        None
    }
}

/// The leading channels of four, as many as a target has.
fn leading(channels: u32) -> (r: &'static str)
    ensures
        r@ == leading_channels(channels),
{
    if channels == 1 {
        ".x"
    } else if channels == 2 {
        ".xy"
    } else {
        ""
    }
}

/// Nothing, in as many channels as a target has.
fn zeroes(channels: u32) -> (r: &'static str)
    ensures
        r@ == zero_channels(channels),
{
    if channels == 1 {
        "0.0"
    } else if channels == 2 {
        "vec2f(0.0)"
    } else {
        "vec4f(0.0)"
    }
}

/// What packs a model's own target, where this is it.
fn own_pack(m: &LightingModel, field: &str) -> (r: Option<&'static str>)
    ensures
        r is Some == is_own_target(*m, field@),
        r is Some ==> r->0@ == m.extra->0.pack@,
{
    match m.extra {
        Some(e) => if same_text(e.target.field, field) {
            Some(e.pack)
        } else {
            None
        },
        None => None,
    }
}

/// Write what a material of a model fills a target with, and note what that
/// imports.
fn push_packed(
    out: &mut String,
    imports: &mut Vec<(&'static str, &'static str)>,
    Ghost(all): Ghost<Seq<(Seq<char>, Seq<char>)>>,
    m: &LightingModel,
    t: &GBufferTarget,
)
    requires
        text::seq_of(old(imports)@) == lists::distinct(all),
    ensures
        final(out)@ == packed_value(old(out)@, *m, *t),
        text::seq_of(final(imports)@) == lists::distinct(
            if base_packing(t.field@) is None && t.field@ != MODEL_ID_FIELD@ && is_own_target(
                *m,
                t.field@,
            ) {
                all.push((m.module@, m.extra->0.pack@))
            } else {
                all
            },
        ),
{
    match base_pack(t.field) {
        Some(expr) => {
            out.append(expr);
        },
        None => {
            if same_text(t.field, MODEL_ID_FIELD) {
                out.append("f32(model_id) / ");
                push_number(out, MODEL_ID_SCALE as u64);
            } else {
                match own_pack(m, t.field) {
                    Some(pack) => {
                        add_import(imports, Ghost(all), m.module, pack);
                        out.append(pack);
                        out.append("(surface)");
                        out.append(leading(t.precision.channels()));
                    },
                    None => {
                        out.append(zeroes(t.precision.channels()));
                    },
                }
            }
        },
    }
}

/// Generate the G-buffer of a set and the function by which a material that
/// shades with a model fills it.
pub fn pack_gbuffer(model: &LightingModel, set: &LightingSet) -> (r: GeneratedLighting)
    ensures
        r@ == packing_for(*model, set@),
{
    let layout = set.gbuffer_layout();
    let mut source = gbuffer_struct(layout.as_slice());
    source.append("\nfn ");
    source.append(abi::PACK_GBUFFER_FN);
    source.append("(surface: ");
    source.append(abi::SURFACE_STRUCT);
    if set.dispatches() {
        source.append(", model_id: u32");
    } else {
        source.append("");
    }
    source.append(") -> ");
    source.append(abi::GBUFFER_STRUCT);
    source.append(" {\n    var out: ");
    source.append(abi::GBUFFER_STRUCT);
    source.append(";\n");
    let ghost start = source@;
    let mut imports: Vec<(&'static str, &'static str)> = Vec::new();
    assert(text::seq_of(imports@) =~= lists::distinct(packed_imports(*model, layout@, 0)));
    let mut i: usize = 0;
    while i < layout.len()
        invariant
            i <= layout@.len(),
            source@ == packed_lines(start, *model, layout@, i as int),
            text::seq_of(imports@) == lists::distinct(packed_imports(*model, layout@, i as int)),
        decreases layout@.len() - i,
    {
        source.append("    out.");
        source.append(layout[i].field);
        source.append(" = ");
        push_packed(
            &mut source,
            &mut imports,
            Ghost(packed_imports(*model, layout@, i as int)),
            model,
            &layout[i],
        );
        source.append(";\n");
        i += 1;
    }
    source.append("    return out;\n}\n");
    GeneratedLighting { source, imports }
}

impl Clone for Dispatch {
    fn clone(&self) -> (r: Self)
        ensures
            r@ == self@,
    {
        match self {
            Dispatch::Direct(m) => Dispatch::Direct(*m),
            Dispatch::Switch(s) => Dispatch::Switch(s.clone()),
        }
    }
}

// ---------------------------------------------------------------------------
// The deferred lighting pass

/// The names of the first `n` models, parted by commas.
pub open spec fn listed_names(out: Seq<char>, s: Seq<LightingModel>, n: int) -> Seq<char>
    decreases n,
{
    if n <= 0 {
        out
    } else if n == 1 {
        out + s[0].name@
    } else {
        listed_names(out, s, n - 1) + ", "@ + s[n - 1].name@
    }
}

/// One `import` line for each of the first `n` imports.
pub open spec fn import_lines(out: Seq<char>, imports: Seq<(Seq<char>, Seq<char>)>, n: int) -> Seq<
    char,
>
    decreases n,
{
    if n <= 0 {
        out
    } else {
        import_lines(out, imports, n - 1) + "import "@ + imports[n - 1].0 + "::"@ + imports[n
            - 1].1 + ";\n"@
    }
}

/// The start of the pass: what it was made from and what it imports.
pub open spec fn pass_head(s: Seq<LightingModel>, imports: Seq<(Seq<char>, Seq<char>)>) -> Seq<
    char,
> {
    import_lines(
        listed_names(
            "// The deferred lighting pass, generated by `wxsl_core::lighting`\n"@
                + "// from the enabled models ("@,
            s,
            s.len() as int,
        ) + ").\n"@ + "// Do not edit: change the set or a model module instead.\n\n"@
            + "import package::wxsl::bindings::{camera, scene};\n"@
            + "import package::space::tangent_basis::tangent_basis;\n"@,
        imports,
        imports.len() as int,
    )
}

/// One texture for each of the first `n` targets.
pub open spec fn target_bindings(out: Seq<char>, layout: Seq<GBufferTarget>, n: int) -> Seq<char>
    decreases n,
{
    if n <= 0 {
        out
    } else {
        target_bindings(out, layout, n - 1) + "@group(3) @binding("@ + text::decimal((n - 1) as nat)
            + ") var gbuffer_"@ + layout[n - 1].field@ + ": texture_2d<f32>;\n"@
    }
}

/// What the pass reads: one texture for each target, then the depth.
pub open spec fn pass_bindings(out: Seq<char>, layout: Seq<GBufferTarget>) -> Seq<char> {
    target_bindings(out + "\n"@, layout, layout.len() as int) + "@group(3) @binding("@ + text::decimal(
        layout.len(),
    ) + ") var gbuffer_depth: texture_depth_2d;\n\n"@
}

/// The triangle that covers the screen.
pub open spec fn pass_vertex(out: Seq<char>) -> Seq<char> {
    out + "@vertex\nfn "@ + abi::LIGHTING_PASS_VERTEX_ENTRY@
        + "(@builtin(vertex_index) index: u32) -> @builtin(position) vec4f {\n"@
        + "    let corner = vec2f(f32((index << 1u) & 2u), f32(index & 2u));\n"@
        + "    return vec4f(corner * 2.0 - vec2f(1.0), 0.0, 1.0);\n}\n\n"@
}

/// What the texels come back as: the surface, the id where there is more than
/// one model, and what the models ask for.
pub open spec fn unpacked_struct(out: Seq<char>, s: Seq<LightingModel>) -> Seq<char> {
    let extras = extras_of(s, s.len() as int);
    extra_fields(
        out + "struct UnpackedGBuffer {\n    surface: Surface,\n"@ + (if s.len() > 1 {
            "    model_id: u32,\n"@
        } else {
            ""@
        }),
        extras,
        extras.len() as int,
    ) + "}\n\n"@
}

/// The first `n` targets as parameters, parted by commas.
pub open spec fn target_params(out: Seq<char>, layout: Seq<GBufferTarget>, n: int) -> Seq<char>
    decreases n,
{
    if n <= 0 {
        out
    } else {
        target_params(out, layout, n - 1) + (if n == 1 {
            ""@
        } else {
            ", "@
        }) + layout[n - 1].field@ + ": "@ + layout[n - 1].precision.field_type()@
    }
}

/// The first `n` extras handed on as they are.
pub open spec fn extras_passed(out: Seq<char>, extras: Seq<ModelExtra>, n: int) -> Seq<char>
    decreases n,
{
    if n <= 0 {
        out
    } else {
        extras_passed(out, extras, n - 1) + "    out."@ + extras[n - 1].target.field@ + " = "@
            + extras[n - 1].target.field@ + ";\n"@
    }
}

/// The function that reads a surface back from the texels.
pub open spec fn unpack_fn_text(out: Seq<char>, s: Seq<LightingModel>) -> Seq<char> {
    let layout = layout_of(s);
    let extras = extras_of(s, s.len() as int);
    extras_passed(
        target_params(
            out + "fn "@ + abi::UNPACK_GBUFFER_FN@ + "("@,
            layout,
            layout.len() as int,
        ) + ") -> UnpackedGBuffer {\n    var out: UnpackedGBuffer;\n"@
            + "    out.surface.base_color = base_color.rgb;\n"@
            + "    out.surface.metallic = base_color.a;\n"@
            + "    out.surface.normal = normalize(normal.xyz);\n"@
            + "    out.surface.roughness = normal.a;\n"@
            + "    out.surface.emissive = emissive.rgb;\n"@
            + "    out.surface.occlusion = emissive.a;\n    out.surface.alpha = 1.0;\n"@ + (
        if s.len() > 1 {
            "    out.model_id = u32(round(lighting * "@ + text::decimal(MODEL_ID_SCALE as nat)
                + "));\n"@
        } else {
            ""@
        }),
        extras,
        extras.len() as int,
    ) + "    return out;\n}\n\n"@
}

/// The first `n` targets loaded, parted by commas.
pub open spec fn target_loads(out: Seq<char>, layout: Seq<GBufferTarget>, n: int) -> Seq<char>
    decreases n,
{
    if n <= 0 {
        out
    } else {
        target_loads(out, layout, n - 1) + (if n == 1 {
            ""@
        } else {
            ", "@
        }) + "textureLoad(gbuffer_"@ + layout[n - 1].field@ + ", coord, 0)"@ + leading_channels(
            layout[n - 1].precision.channels(),
        )
    }
}

/// The first `n` extras read back, parted by commas.
pub open spec fn extras_read(out: Seq<char>, extras: Seq<ModelExtra>, n: int) -> Seq<char>
    decreases n,
{
    if n <= 0 {
        out
    } else {
        extras_read(out, extras, n - 1) + (if n == 1 {
            ""@
        } else {
            ", "@
        }) + "unpacked."@ + extras[n - 1].target.field@
    }
}

/// What the shading function is handed.
pub open spec fn shade_args(out: Seq<char>, s: Seq<LightingModel>) -> Seq<char> {
    let extras = extras_of(s, s.len() as int);
    if s.len() == 1 {
        out + "unpacked.surface, ctx"@
    } else {
        extras_read(
            out + "unpacked.surface, ctx, ModelExtras("@,
            extras,
            extras.len() as int,
        ) + "), unpacked.model_id"@
    }
}

/// The function that shades one pixel. A pixel that nothing covered keeps the
/// background.
pub open spec fn pass_fragment(out: Seq<char>, s: Seq<LightingModel>) -> Seq<char> {
    let layout = layout_of(s);
    shade_args(
        target_loads(
            out + "\n@fragment\nfn "@ + abi::LIGHTING_PASS_FRAGMENT_ENTRY@
                + "(@builtin(position) position: vec4f) -> @location(0) vec4f {\n"@
                + "    let coord = vec2i(position.xy);\n"@
                + "    let depth = textureLoad(gbuffer_depth, coord, 0);\n"@
                + "    if depth >= 1.0 {\n        return scene.background;\n    }\n"@
                + "    let size = vec2f(textureDimensions(gbuffer_"@ + layout[0].field@
                + "));\n"@
                + "    let ndc = vec2f(position.x / size.x * 2.0 - 1.0, 1.0 - position.y / size.y * 2.0);\n"@
                + "    let world = camera.inverse_view_projection * vec4f(ndc, depth, 1.0);\n"@
                + "    let unpacked = "@ + abi::UNPACK_GBUFFER_FN@ + "("@,
            layout,
            layout.len() as int,
        ) + ");\n    let basis = tangent_basis(unpacked.surface.normal);\n"@
            + "    var ctx: SurfaceContext;\n    ctx.world_position = world.xyz / world.w;\n"@
            + "    ctx.world_normal = unpacked.surface.normal;\n"@
            + "    ctx.world_tangent = basis[0];\n    ctx.world_bitangent = basis[1];\n"@
            + "    ctx.view_direction = normalize(camera.position.xyz - ctx.world_position);\n"@
            + "    ctx.time = scene.time;\n    return "@ + abi::SHADE_SURFACE_FN@ + "("@,
        s,
    ) + ");\n}\n"@
}

/// How the pass over a set picks a model: one model needs no switch.
pub open spec fn pass_dispatch(s: Seq<LightingModel>) -> DispatchView {
    if s.len() == 1 {
        DispatchView::Direct(s[0])
    } else {
        DispatchView::Switch(s)
    }
}

/// The whole deferred lighting pass of a set.
pub open spec fn lighting_pass_text(s: Seq<LightingModel>) -> Seq<char> {
    let shading = shading_for(pass_dispatch(s), true);
    pass_fragment(
        unpack_fn_text(
            unpacked_struct(
                pass_vertex(pass_bindings(pass_head(s, shading.imports), layout_of(s))),
                s,
            ),
            s,
        ) + shading.source,
        s,
    )
}

/// Write the start of the pass.
fn start_pass(set: &LightingSet, imports: &Vec<(&'static str, &'static str)>) -> (r: String)
    ensures
        r@ == pass_head(set@, text::seq_of(imports@)),
{
    let ghost s = set@;
    let mut text = "// The deferred lighting pass, generated by `wxsl_core::lighting`\n".to_owned();
    text.append("// from the enabled models (");
    let ghost start = text@;
    let models = set.models();
    let mut i: usize = 0;
    while i < models.len()
        invariant
            i <= s.len(),
            s == models@,
            text@ == listed_names(start, s, i as int),
        decreases s.len() - i,
    {
        if i > 0 {
            text.append(", ");
        }
        text.append(models[i].name);
        i += 1;
    }
    text.append(").\n");
    text.append("// Do not edit: change the set or a model module instead.\n\n");
    text.append("import package::wxsl::bindings::{camera, scene};\n");
    text.append("import package::space::tangent_basis::tangent_basis;\n");
    let ghost begun = text@;
    let ghost pairs = text::seq_of(imports@);
    let mut j: usize = 0;
    while j < imports.len()
        invariant
            j <= pairs.len() == imports@.len(),
            pairs == text::seq_of(imports@),
            text@ == import_lines(begun, pairs, j as int),
        decreases pairs.len() - j,
    {
        assert(pairs[j as int] == imports@[j as int]@);
        text.append("import ");
        text.append(imports[j].0);
        text.append("::");
        text.append(imports[j].1);
        text.append(";\n");
        j += 1;
    }
    text
}

/// Write what the pass reads.
fn push_pass_bindings(out: &mut String, layout: &Vec<GBufferTarget>)
    ensures
        final(out)@ == pass_bindings(old(out)@, layout@),
{
    out.append("\n");
    let ghost start = out@;
    let mut i: usize = 0;
    while i < layout.len()
        invariant
            i <= layout@.len(),
            out@ == target_bindings(start, layout@, i as int),
        decreases layout@.len() - i,
    {
        out.append("@group(3) @binding(");
        push_number(out, i as u64);
        out.append(") var gbuffer_");
        out.append(layout[i].field);
        out.append(": texture_2d<f32>;\n");
        i += 1;
    }
    out.append("@group(3) @binding(");
    push_number(out, layout.len() as u64);
    out.append(") var gbuffer_depth: texture_depth_2d;\n\n");
}

/// Write what the texels come back as.
fn push_unpacked_struct(out: &mut String, set: &LightingSet, extras: &Vec<ModelExtra>)
    requires
        extras@ == extras_of(set@, set@.len() as int),
    ensures
        final(out)@ == unpacked_struct(old(out)@, set@),
{
    out.append("struct UnpackedGBuffer {\n    surface: Surface,\n");
    if set.dispatches() {
        out.append("    model_id: u32,\n");
    } else {
        out.append("");
    }
    push_extra_fields(out, extras);
    out.append("}\n\n");
}

/// Write the function that reads a surface back from the texels.
fn push_unpack_fn(
    out: &mut String,
    set: &LightingSet,
    layout: &Vec<GBufferTarget>,
    extras: &Vec<ModelExtra>,
)
    requires
        layout@ == layout_of(set@),
        extras@ == extras_of(set@, set@.len() as int),
    ensures
        final(out)@ == unpack_fn_text(old(out)@, set@),
{
    out.append("fn ");
    out.append(abi::UNPACK_GBUFFER_FN);
    out.append("(");
    let ghost start = out@;
    let mut i: usize = 0;
    while i < layout.len()
        invariant
            i <= layout@.len(),
            out@ == target_params(start, layout@, i as int),
        decreases layout@.len() - i,
    {
        out.append(if i == 0 { "" } else { ", " });
        out.append(layout[i].field);
        out.append(": ");
        out.append(layout[i].precision.field_type());
        i += 1;
    }
    out.append(") -> UnpackedGBuffer {\n    var out: UnpackedGBuffer;\n");
    out.append("    out.surface.base_color = base_color.rgb;\n");
    out.append("    out.surface.metallic = base_color.a;\n");
    out.append("    out.surface.normal = normalize(normal.xyz);\n");
    out.append("    out.surface.roughness = normal.a;\n");
    out.append("    out.surface.emissive = emissive.rgb;\n");
    out.append("    out.surface.occlusion = emissive.a;\n    out.surface.alpha = 1.0;\n");
    let mut id_line = "".to_owned();
    if set.dispatches() {
        id_line = "    out.model_id = u32(round(lighting * ".to_owned();
        push_number(&mut id_line, MODEL_ID_SCALE as u64);
        id_line.append("));\n");
    }
    out.append(id_line.as_str());
    let ghost begun = out@;
    let mut j: usize = 0;
    while j < extras.len()
        invariant
            j <= extras@.len(),
            out@ == extras_passed(begun, extras@, j as int),
        decreases extras@.len() - j,
    {
        out.append("    out.");
        out.append(extras[j].target.field);
        out.append(" = ");
        out.append(extras[j].target.field);
        out.append(";\n");
        j += 1;
    }
    out.append("    return out;\n}\n\n");
}

/// Write what the shading function is handed.
fn push_shade_args(out: &mut String, set: &LightingSet, extras: &Vec<ModelExtra>)
    requires
        extras@ == extras_of(set@, set@.len() as int),
    ensures
        final(out)@ == shade_args(old(out)@, set@),
{
    if set.len() == 1 {
        out.append("unpacked.surface, ctx");
    } else {
        out.append("unpacked.surface, ctx, ModelExtras(");
        let ghost start = out@;
        let mut i: usize = 0;
        while i < extras.len()
            invariant
                i <= extras@.len(),
                out@ == extras_read(start, extras@, i as int),
            decreases extras@.len() - i,
        {
            out.append(if i == 0 { "" } else { ", " });
            out.append("unpacked.");
            out.append(extras[i].target.field);
            i += 1;
        }
        out.append("), unpacked.model_id");
    }
}

/// Write the function that shades one pixel.
fn push_pass_fragment(
    out: &mut String,
    set: &LightingSet,
    layout: &Vec<GBufferTarget>,
    extras: &Vec<ModelExtra>,
)
    requires
        layout@ == layout_of(set@),
        layout@.len() > 0,
        extras@ == extras_of(set@, set@.len() as int),
    ensures
        final(out)@ == pass_fragment(old(out)@, set@),
{
    out.append("\n@fragment\nfn ");
    out.append(abi::LIGHTING_PASS_FRAGMENT_ENTRY);
    out.append("(@builtin(position) position: vec4f) -> @location(0) vec4f {\n");
    out.append("    let coord = vec2i(position.xy);\n");
    out.append("    let depth = textureLoad(gbuffer_depth, coord, 0);\n");
    out.append("    if depth >= 1.0 {\n        return scene.background;\n    }\n");
    out.append("    let size = vec2f(textureDimensions(gbuffer_");
    out.append(layout[0].field);
    out.append("));\n");
    out.append(
        "    let ndc = vec2f(position.x / size.x * 2.0 - 1.0, 1.0 - position.y / size.y * 2.0);\n",
    );
    out.append("    let world = camera.inverse_view_projection * vec4f(ndc, depth, 1.0);\n");
    out.append("    let unpacked = ");
    out.append(abi::UNPACK_GBUFFER_FN);
    out.append("(");
    let ghost start = out@;
    let mut i: usize = 0;
    while i < layout.len()
        invariant
            i <= layout@.len(),
            out@ == target_loads(start, layout@, i as int),
        decreases layout@.len() - i,
    {
        out.append(if i == 0 { "" } else { ", " });
        out.append("textureLoad(gbuffer_");
        out.append(layout[i].field);
        out.append(", coord, 0)");
        out.append(leading(layout[i].precision.channels()));
        i += 1;
    }
    out.append(");\n    let basis = tangent_basis(unpacked.surface.normal);\n");
    out.append("    var ctx: SurfaceContext;\n    ctx.world_position = world.xyz / world.w;\n");
    out.append("    ctx.world_normal = unpacked.surface.normal;\n");
    out.append("    ctx.world_tangent = basis[0];\n    ctx.world_bitangent = basis[1];\n");
    out.append(
        "    ctx.view_direction = normalize(camera.position.xyz - ctx.world_position);\n",
    );
    out.append("    ctx.time = scene.time;\n    return ");
    out.append(abi::SHADE_SURFACE_FN);
    out.append("(");
    push_shade_args(out, set, extras);
    out.append(");\n}\n");
}

/// Generate the whole deferred lighting pass of a set, as one module.
pub fn lighting_pass_source(set: &LightingSet) -> (r: String)
    ensures
        r@ == lighting_pass_text(set@),
{
    let layout = set.gbuffer_layout();
    let extras = set.extras();
    let dispatch = if set.len() == 1 {
        Dispatch::Direct(set.models()[0])
    } else {
        Dispatch::Switch(set.clone())
    };
    let shading = shade_surface(&dispatch);
    let mut out = start_pass(set, &shading.imports);
    push_pass_bindings(&mut out, &layout);
    out.append("@vertex\nfn ");
    out.append(abi::LIGHTING_PASS_VERTEX_ENTRY);
    out.append("(@builtin(vertex_index) index: u32) -> @builtin(position) vec4f {\n");
    out.append("    let corner = vec2f(f32((index << 1u) & 2u), f32(index & 2u));\n");
    out.append("    return vec4f(corner * 2.0 - vec2f(1.0), 0.0, 1.0);\n}\n\n");
    push_unpacked_struct(&mut out, set, &extras);
    push_unpack_fn(&mut out, set, &layout, &extras);
    out.append(shading.source.as_str());
    push_pass_fragment(&mut out, set, &layout, &extras);
    out
}

/// Nothing is imported twice, however many models share a function, and
/// everything that the shading calls is imported.
pub proof fn nothing_is_imported_twice(d: DispatchView, declare_macros: bool)
    ensures
        shading_for(d, declare_macros).imports.no_duplicates(),
        forall|import: (Seq<char>, Seq<char>)| #[trigger]
            shading_for(d, declare_macros).imports.contains(import) <==> dispatch_imports(
                d,
            ).contains(import),
{
    lists::lemma_distinct(dispatch_imports(d));
}

} // verus!
