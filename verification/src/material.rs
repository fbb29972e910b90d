//! What an author decides about a material that is not a node: one value as it
//! is authored, and one as it is compiled under.

use vstd::prelude::*;

use crate::abi;
use crate::copies::{copy_opt, copy_vec};
use crate::lighting;
use crate::lighting::{
    features, ChannelRequest, Feature, LightingError, LightingErrorView, LightingModel, LightingSet,
    MaterialLighting, MaterialLightingView,
};
use crate::lists;
use crate::macros::{MacroSet, MacroValue};
use crate::tags::Tags;
use crate::text;
use crate::text::same_text;

verus! {

/// How a material is compiled beside its graph, as it is authored.
#[derive(Debug, PartialEq)]
pub struct MaterialConfig {
    /// Macro values over those the graph pins.
    pub macros: MacroSet,
    /// The name of the model that shades it; none for the set's own choice.
    pub model: Option<String>,
    /// Whether it is drawn into shadow maps.
    pub cast_shadow: bool,
    /// Whether shadows fall on it.
    pub receive_shadow: bool,
    /// What it is, for a pass to select on.
    pub tags: Tags,
    /// The channels that the pipeline around it carries.
    pub features: Vec<ChannelRequest>,
}

/// What a [`MaterialConfig`] stands for.
#[verifier::ext_equal]
pub struct MaterialConfigView {
    /// Macro values over those the graph pins.
    pub macros: Map<Seq<char>, MacroValue>,
    /// The name of the model that shades it; none for the set's own choice.
    pub model: Option<Seq<char>>,
    /// Whether it is drawn into shadow maps.
    pub cast_shadow: bool,
    /// Whether shadows fall on it.
    pub receive_shadow: bool,
    /// What it is, for a pass to select on.
    pub tags: Set<Seq<char>>,
    /// The channels that the pipeline around it carries.
    pub features: Seq<ChannelRequest>,
}

impl View for MaterialConfig {
    type V = MaterialConfigView;

    open spec fn view(&self) -> MaterialConfigView {
        MaterialConfigView {
            macros: self.macros@,
            model: text::opt_of(self.model),
            cast_shadow: self.cast_shadow,
            receive_shadow: self.receive_shadow,
            tags: self.tags@,
            features: self.features@,
        }
    }
}

impl Clone for MaterialConfig {
    fn clone(&self) -> (r: Self)
        ensures
            r@ == self@,
    {
        MaterialConfig {
            macros: self.macros.clone(),
            model: copy_opt(&self.model),
            cast_shadow: self.cast_shadow,
            receive_shadow: self.receive_shadow,
            tags: self.tags.clone(),
            features: copy_vec(&self.features),
        }
    }
}

/// A material with nothing decided.
pub open spec fn plain_config() -> MaterialConfigView {
    MaterialConfigView {
        macros: Map::empty(),
        model: None,
        cast_shadow: true,
        receive_shadow: true,
        tags: Set::empty(),
        features: Seq::empty(),
    }
}

impl Default for MaterialConfig {
    fn default() -> (r: Self)
        ensures
            r@ == plain_config(),
    {
        let r = MaterialConfig {
            macros: MacroSet::new(),
            model: None,
            cast_shadow: true,
            receive_shadow: true,
            tags: Tags::new(),
            features: Vec::new(),
        };
        assert(r@ =~= plain_config());
        r
    }
}

/// How a material is compiled, with every name resolved.
#[derive(Debug, PartialEq)]
pub struct ResolvedMaterialConfig {
    /// Macro values over the graph's own.
    pub macros: MacroSet,
    /// What it is shaded with.
    pub lighting: MaterialLighting,
    /// Whether it is drawn into shadow maps.
    pub cast_shadow: bool,
    /// What it is, for a pass to select on.
    pub tags: Tags,
}

/// What a [`ResolvedMaterialConfig`] stands for.
#[verifier::ext_equal]
pub struct ResolvedMaterialConfigView {
    /// Macro values over the graph's own.
    pub macros: Map<Seq<char>, MacroValue>,
    /// What it is shaded with.
    pub lighting: MaterialLightingView,
    /// Whether it is drawn into shadow maps.
    pub cast_shadow: bool,
    /// What it is, for a pass to select on.
    pub tags: Set<Seq<char>>,
}

impl View for ResolvedMaterialConfig {
    type V = ResolvedMaterialConfigView;

    open spec fn view(&self) -> ResolvedMaterialConfigView {
        ResolvedMaterialConfigView {
            macros: self.macros@,
            lighting: self.lighting@,
            cast_shadow: self.cast_shadow,
            tags: self.tags@,
        }
    }
}

impl Clone for ResolvedMaterialConfig {
    fn clone(&self) -> (r: Self)
        ensures
            r@ == self@,
    {
        ResolvedMaterialConfig {
            macros: self.macros.clone(),
            lighting: self.lighting.clone(),
            cast_shadow: self.cast_shadow,
            tags: self.tags.clone(),
        }
    }
}

/// A configuration resolved against the models that a pipeline enables.
/// Whether shadows fall on the material is the value of a macro, whatever the
/// configuration says of that macro otherwise.
pub open spec fn resolved_config(c: MaterialConfigView, set: Seq<LightingModel>) -> Result<
    ResolvedMaterialConfigView,
    LightingErrorView,
> {
    match lighting::lighting_for(set, c.model) {
        Err(e) => Err(e),
        Ok(lighting) => Ok(
            ResolvedMaterialConfigView {
                macros: c.macros.insert(
                    abi::FEATURE_RECEIVE_SHADOWS@,
                    MacroValue::Flag(c.receive_shadow),
                ),
                lighting: MaterialLightingView { features: c.features, ..lighting },
                cast_shadow: c.cast_shadow,
                tags: c.tags,
            },
        ),
    }
}

impl MaterialConfig {
    /// Nothing decided but these macro values.
    pub fn with_macros(macros: MacroSet) -> (r: Self)
        ensures
            r@ == (MaterialConfigView { macros: macros@, ..plain_config() }),
    {
        MaterialConfig { macros, ..MaterialConfig::default() }
    }

    /// Shaded with the model of a name.
    pub fn with_model(self, model: &str) -> (r: Self)
        ensures
            r@ == (MaterialConfigView { model: Some(model@), ..self@ }),
    {
        MaterialConfig { model: Some(model.to_owned()), ..self }
    }

    /// With both decisions on shadows.
    pub fn with_shadows(self, cast: bool, receive: bool) -> (r: Self)
        ensures
            r@ == (MaterialConfigView { cast_shadow: cast, receive_shadow: receive, ..self@ }),
    {
        MaterialConfig { cast_shadow: cast, receive_shadow: receive, ..self }
    }

    /// With these tags.
    pub fn with_tags(self, tags: Tags) -> (r: Self)
        ensures
            r@ == (MaterialConfigView { tags: tags@, ..self@ }),
    {
        MaterialConfig { tags, ..self }
    }

    /// Under a pipeline that carries these channels.
    pub fn with_features(self, features: Vec<ChannelRequest>) -> (r: Self)
        ensures
            r@ == (MaterialConfigView { features: features@, ..self@ }),
    {
        MaterialConfig { features, ..self }
    }

    /// Resolve against the models that the pipeline enables: the one place
    /// where a name becomes an id and a decision a macro.
    pub fn resolve(&self, set: &LightingSet) -> (r: Result<ResolvedMaterialConfig, LightingError>)
        ensures
            match (r, resolved_config(self@, set@)) {
                (Ok(c), Ok(v)) => c@ == v && c@.lighting.enabled(),
                (Err(e), Err(v)) => e@ == v,
                _ => false,
            },
    {
        let name = match &self.model {
            Some(name) => Some(name.as_str()),
            None => None,
        };
        let lighting = match MaterialLighting::resolve(set, name) {
            Ok(l) => l.with_features(copy_vec(&self.features)),
            Err(e) => {
                return Err(e);
            },
        };
        let mut macros = self.macros.clone();
        macros.set(abi::FEATURE_RECEIVE_SHADOWS, MacroValue::Flag(self.receive_shadow));
        Ok(
            ResolvedMaterialConfig {
                macros,
                lighting,
                cast_shadow: self.cast_shadow,
                tags: self.tags.clone(),
            },
        )
    }
}

/// A material with nothing decided, resolved against the model that ships as
/// the default.
pub open spec fn plain_resolved() -> ResolvedMaterialConfigView {
    ResolvedMaterialConfigView {
        macros: Map::empty().insert(abi::FEATURE_RECEIVE_SHADOWS@, MacroValue::Flag(true)),
        lighting: lighting::default_lighting(),
        cast_shadow: true,
        tags: Set::empty(),
    }
}

impl Default for ResolvedMaterialConfig {
    fn default() -> (r: Self)
        ensures
            r@ == plain_resolved(),
            r@.lighting.enabled(),
    {
        let mut macros = MacroSet::new();
        macros.set(abi::FEATURE_RECEIVE_SHADOWS, MacroValue::Flag(true));
        ResolvedMaterialConfig {
            macros,
            lighting: MaterialLighting::default(),
            cast_shadow: true,
            tags: Tags::new(),
        }
    }
}

/// Whether macro values turn a feature on.
pub open spec fn demanded(macros: Map<Seq<char>, MacroValue>, f: Feature) -> bool {
    macros.contains_key(f.macro_name@) && macros[f.macro_name@] == MacroValue::Flag(true)
}

/// Whether a feature is among the channels that are carried.
pub open spec fn carried(channels: Seq<ChannelRequest>, f: Feature) -> bool {
    exists|i: int| 0 <= i < channels.len() && lighting::source_name((#[trigger] channels[i]).source) == f.name@
}

/// Being a feature that is turned on and not carried.
pub open spec fn unanswered(
    macros: Map<Seq<char>, MacroValue>,
    channels: Seq<ChannelRequest>,
) -> spec_fn(Feature) -> bool {
    |f: Feature| demanded(macros, f) && !carried(channels, f)
}

impl ResolvedMaterialConfig {
    /// Check that every feature that the macro values in effect turn on is
    /// carried; the first that is not is named.
    pub fn check_feature_demands(&self, effective: &MacroSet) -> (r: Result<(), LightingError>)
        ensures
            match lists::first_where(features()@, unanswered(effective@, self@.lighting.features)) {
                Some(f) => r is Err && r->Err_0@ == (LightingErrorView::FeatureNotCarried {
                    macro_name: f.macro_name@,
                    feature: f.name@,
                }),
                None => r is Ok,
            },
    {
        let all = features();
        let ghost s = features()@;
        let ghost p = unanswered(effective@, self@.lighting.features);
        let mut i: usize = 0;
        assert(s.skip(0) =~= s);
        while i < 1
            invariant
                i <= s.len() == 1,
                all@ == s,
                s == features()@,
                p == unanswered(effective@, self@.lighting.features),
                lists::first_where(s, p) == lists::first_where(s.skip(i as int), p),
            decreases 1 - i,
        {
            proof {
                lists::lemma_first_where_skip(s, p, i as int);
            }
            let demands = match effective.get(all[i].macro_name) {
                Some(MacroValue::Flag(on)) => on,
                _ => false,
            };
            if demands && !has_channel(self.lighting.features(), all[i].name) {
                return Err(
                    LightingError::FeatureNotCarried {
                        macro_name: all[i].macro_name.to_owned(),
                        feature: all[i].name.to_owned(),
                    },
                );
            }
            i += 1;
        }
        Ok(())
    }

    /// Whether shadows fall on the material, by the macro that says so.
    pub fn receive_shadow(&self) -> (r: bool)
        ensures
            r == (self@.macros.contains_key(abi::FEATURE_RECEIVE_SHADOWS@)
                && self@.macros[abi::FEATURE_RECEIVE_SHADOWS@] == MacroValue::Flag(true)),
    {
        match self.macros.get(abi::FEATURE_RECEIVE_SHADOWS) {
            Some(MacroValue::Flag(on)) => on,
            _ => false,
        }
    }
}

/// Whether a feature is among the channels that are carried.
fn has_channel(channels: &Vec<ChannelRequest>, name: &str) -> (r: bool)
    ensures
        r == exists|i: int|
            0 <= i < channels@.len() && lighting::source_name((#[trigger] channels@[i]).source) == name@,
{
    let mut i: usize = 0;
    while i < channels.len()
        invariant
            i <= channels@.len(),
            forall|j: int|
                0 <= j < i ==> lighting::source_name((#[trigger] channels@[j]).source) != name@,
        decreases channels@.len() - i,
    {
        if same_text(channels[i].source.name(), name) {
            return true;
        }
        i += 1;
    }
    false
}

/// A material receives shadows exactly where its author decided so, whatever
/// macro values came with the decision.
pub proof fn the_decision_is_the_macro(c: MaterialConfigView, set: Seq<LightingModel>)
    requires
        resolved_config(c, set) is Ok,
    ensures
        resolved_config(c, set)->Ok_0.macros[abi::FEATURE_RECEIVE_SHADOWS@] == MacroValue::Flag(
            c.receive_shadow,
        ),
        forall|name: Seq<char>|
            #![trigger resolved_config(c, set)->Ok_0.macros[name]]
            name != abi::FEATURE_RECEIVE_SHADOWS@ && c.macros.contains_key(name)
                ==> resolved_config(c, set)->Ok_0.macros[name] == c.macros[name],
{
}

/// Resolving fails only for the name of a model that is not enabled.
pub proof fn only_an_unknown_model_is_refused(c: MaterialConfigView, set: Seq<LightingModel>)
    ensures
        resolved_config(c, set) is Err <==> c.model is Some && forall|i: int|
            0 <= i < set.len() ==> (#[trigger] set[i]).name@ != c.model->0,
        resolved_config(c, set) is Err ==> resolved_config(c, set)->Err_0
            == (LightingErrorView::UnknownModel { name: c.model->0 }),
{
    if c.model is Some {
        let p = lighting::model_named(c.model->0);
        lists::lemma_first_where(set, p);
        if lists::first_where(set, p) is Some {
            let m = lists::first_where(set, p)->0;
            assert(p(m));
            assert(set.contains(m));
            let i = choose|i: int| 0 <= i < set.len() && set[i] == m;
            assert(set[i].name@ == c.model->0);
        } else {
            assert forall|i: int| 0 <= i < set.len() implies (#[trigger] set[i]).name@
                != c.model->0 by {
                assert(!p(set[i]));
            }
        }
    }
}
} // verus!
