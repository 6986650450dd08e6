//! Appearance profiles and the layered, field-wise resolution of a background.

use vstd::prelude::*;
use vstd::std_specs::cmp::PartialEqSpecImpl;

use crate::error::Error;
use crate::model::{same_path, copy_path, desc_prefix, relativize_rule, Background, Fit, OutputIdentity, Rule, Source};
use crate::output_map::OutputMap;
use crate::paths::{base_directory, base_directory_spec};
use crate::SCHEMA_VERSION;

verus! {

/// One layer of preferences: a global background rule and rules for
/// individual outputs.
#[derive(Debug, Clone)]
pub struct Profile {
    pub version: u32,
    pub background: Background,
    pub output: OutputMap,
}

impl Default for Profile {
    fn default() -> (p: Profile)
        ensures
            p.version == SCHEMA_VERSION,
            p.background@ == (Rule { path: None, fit: None }),
            p.output@ == Map::<Seq<char>, Rule>::empty(),
    {
        Profile { version: SCHEMA_VERSION, background: Background::default(), output: OutputMap::new() }
    }
}

/// What reading a layer's profile file gave; `E` is what the parser reports
/// of a malformed file.
#[derive(Debug)]
pub enum LayerFile<E> {
    /// There is no file.
    Missing,
    /// The file exists but could not be read.
    Unreadable,
    /// The file was read but is malformed.
    Malformed(E),
    /// The file was read and parsed.
    Parsed(Profile),
}

/// Why a present layer file was not accepted.
#[derive(Debug)]
pub enum LayerError<E> {
    /// The file is malformed; the parser's report.
    Malformed(E),
    /// The parsed profile was refused.
    Refused(Error),
}

impl PartialEq for Profile {
    fn eq(&self, other: &Self) -> (res: bool) {
        self.version == other.version && self.background == other.background && self.output
            == other.output
    }
}

impl Eq for Profile {

}

impl PartialEqSpecImpl for Profile {
    open spec fn obeys_eq_spec() -> bool {
        true
    }

    open spec fn eq_spec(&self, other: &Profile) -> bool {
        &&& self.version == other.version
        &&& self.background@ == other.background@
        &&& self.output@ == other.output@
    }
}

impl Profile {
    /// Accepts the profile parsed from the file at `path`: a profile of
    /// another schema version is refused with `Error::Version`; otherwise
    /// every relative image path is resolved against the directory of `path`.
    pub fn load(path: &str, parsed: Profile) -> (res: Result<Profile, Error>)
        ensures
            res is Ok <==> parsed.version == SCHEMA_VERSION,
            res matches Err(e) ==> e matches Error::Version(v) && v == parsed.version,
            res matches Ok(p) ==> {
                &&& p.version == parsed.version
                &&& p.background@ == relativize_rule(parsed.background@, base_directory_spec(path@))
                &&& p.output@ == parsed.output@.map_values(
                    |r: Rule| relativize_rule(r, base_directory_spec(path@)),
                )
            },
    {
        if parsed.version != SCHEMA_VERSION {
            return Err(Error::Version(parsed.version));
        }
        let mut value = parsed;
        let base = base_directory(path);
        value.background.relativize(base.as_str());
        value.output.relativize(base.as_str());
        Ok(value)
    }

    /// The layer that the profile file at `path` contributes: a missing or
    /// unreadable file is skipped (no layer), a malformed one is reported
    /// with the parser's report, and a parsed one is accepted or refused as
    /// by [`Profile::load`].
    pub fn load_layer<E>(path: &str, file: LayerFile<E>) -> (res: Result<
        Option<Profile>,
        LayerError<E>,
    >)
        ensures
            match file {
                LayerFile::Missing => res matches Ok(None),
                LayerFile::Unreadable => res matches Ok(None),
                LayerFile::Malformed(e) => res matches Err(LayerError::Malformed(r)) && r == e,
                LayerFile::Parsed(parsed) => {
                    &&& res is Ok <==> parsed.version == SCHEMA_VERSION
                    &&& res matches Err(e) ==> e matches LayerError::Refused(Error::Version(v))
                        && v == parsed.version
                    &&& res matches Ok(Some(p)) ==> {
                        &&& p.version == parsed.version
                        &&& p.background@ == relativize_rule(
                            parsed.background@,
                            base_directory_spec(path@),
                        )
                        &&& p.output@ == parsed.output@.map_values(
                            |r: Rule| relativize_rule(r, base_directory_spec(path@)),
                        )
                    }
                    &&& res matches Ok(l) ==> l is Some
                },
            },
    {
        match file {
            LayerFile::Missing => Ok(None),
            LayerFile::Unreadable => Ok(None),
            LayerFile::Malformed(e) => Err(LayerError::Malformed(e)),
            LayerFile::Parsed(parsed) => match Profile::load(path, parsed) {
                Ok(p) => Ok(Some(p)),
                Err(e) => Err(LayerError::Refused(e)),
            },
        }
    }
}

} // verus!

verus! {

/// The rule of the first selector in `sels` that `rules` has a rule for.
pub open spec fn first_selected(rules: Map<Seq<char>, Rule>, sels: Seq<Seq<char>>) -> Option<Rule>
    decreases sels.len(),
{
    if sels.len() == 0 {
        None
    } else if rules.dom().contains(sels[0]) {
        Some(rules[sels[0]])
    } else {
        first_selected(rules, sels.drop_first())
    }
}

/// The global rule of a layer that may be missing.
pub open spec fn global_rule(profile: Option<Profile>) -> Option<Rule> {
    match profile {
        Some(p) => Some(p.background@),
        None => None,
    }
}

/// The rule of a layer that may be missing for `output`: the rule of its
/// connector, else that of its description.
pub open spec fn output_rule(profile: Option<Profile>, output: OutputIdentity) -> Option<Rule> {
    match profile {
        Some(p) => first_selected(p.output@, output.spec_selectors()),
        None => None,
    }
}

/// The content of an optional rule.
pub open spec fn rule_of(b: Option<&Background>) -> Option<Rule> {
    match b {
        Some(b) => Some(b@),
        None => None,
    }
}

/// The state of a resolution after some layers: the fields decided so far
/// and the layers they came from.
pub struct Resolution {
    pub path: Option<Seq<char>>,
    pub fit: Option<Fit>,
    pub path_source: Source,
    pub fit_source: Source,
}

/// Nothing decided yet.
pub open spec fn unresolved() -> Resolution {
    Resolution { path: None, fit: None, path_source: Source::Default, fit_source: Source::Default }
}

/// Applies one layer on top of `acc`: each field that the layer's rule sets
/// overrides the field decided so far, independently of the other field.
pub open spec fn apply_layer(acc: Resolution, rule: Option<Rule>, source: Source) -> Resolution {
    match rule {
        Some(r) => Resolution {
            path: if r.path is Some { r.path } else { acc.path },
            path_source: if r.path is Some { source } else { acc.path_source },
            fit: if r.fit is Some { r.fit } else { acc.fit },
            fit_source: if r.fit is Some { source } else { acc.fit_source },
        },
        None => acc,
    }
}

/// Applies `layers` in order, lowest precedence first.
pub open spec fn resolve_layers(layers: Seq<(Option<Rule>, Source)>) -> Resolution
    decreases layers.len(),
{
    if layers.len() == 0 {
        unresolved()
    } else {
        apply_layer(resolve_layers(layers.drop_last()), layers.last().0, layers.last().1)
    }
}

/// A resolved background: a path where any layer sets one, and a fit that
/// falls back to the default fit.
pub struct ResolvedView {
    pub path: Option<Seq<char>>,
    pub fit: Fit,
    pub path_source: Source,
    pub fit_source: Source,
}

/// The outcome of a resolution, with the default fit where no layer set one.
pub open spec fn finish(r: Resolution) -> ResolvedView {
    ResolvedView {
        path: r.path,
        fit: match r.fit {
            Some(f) => f,
            None => Fit::Fill,
        },
        path_source: r.path_source,
        fit_source: r.fit_source,
    }
}

/// The background resolved for one output, with the layer each field came
/// from.
#[derive(Debug, Clone)]
pub struct ResolvedBackground {
    pub path: Option<String>,
    pub fit: Fit,
    pub path_source: Source,
    pub fit_source: Source,
}

impl View for ResolvedBackground {
    type V = ResolvedView;

    open spec fn view(&self) -> ResolvedView {
        ResolvedView {
            path: self.path.deep_view(),
            fit: self.fit,
            path_source: self.path_source,
            fit_source: self.fit_source,
        }
    }
}

impl PartialEq for ResolvedBackground {
    fn eq(&self, other: &Self) -> (res: bool) {
        same_path(&self.path, &other.path) && self.fit == other.fit && self.path_source
            == other.path_source && self.fit_source == other.fit_source
    }
}

impl Eq for ResolvedBackground {

}

impl PartialEqSpecImpl for ResolvedBackground {
    open spec fn obeys_eq_spec() -> bool {
        true
    }

    open spec fn eq_spec(&self, other: &ResolvedBackground) -> bool {
        self@ == other@
    }
}

/// The three installed layers of preferences. A layer whose file is missing
/// or cannot be read is skipped, and so absent here.
#[derive(Debug, Clone)]
pub struct Registry {
    pub packaged: Option<Profile>,
    pub system: Option<Profile>,
    pub user: Option<Profile>,
}

impl Default for Registry {
    fn default() -> (r: Registry)
        ensures
            r.packaged is None,
            r.system is None,
            r.user is None,
    {
        Registry { packaged: None, system: None, user: None }
    }
}

struct Pending {
    path: Option<String>,
    fit: Option<Fit>,
    path_source: Source,
    fit_source: Source,
}

impl View for Pending {
    type V = Resolution;

    closed spec fn view(&self) -> Resolution {
        Resolution {
            path: self.path.deep_view(),
            fit: self.fit,
            path_source: self.path_source,
            fit_source: self.fit_source,
        }
    }
}

impl Pending {
    fn apply(&mut self, rule: Option<&Background>, source: Source)
        ensures
            final(self)@ == apply_layer(old(self)@, rule_of(rule), source),
    {
        match rule {
            Some(r) => {
                if r.path.is_some() {
                    self.path = copy_path(&r.path);
                    self.path_source = source;
                }
                if r.fit.is_some() {
                    self.fit = r.fit;
                    self.fit_source = source;
                }
            },
            None => {},
        }
    }
}

proof fn lemma_first_selected_skip(rules: Map<Seq<char>, Rule>, sels: Seq<Seq<char>>, i: int)
    requires
        0 <= i < sels.len(),
        !rules.dom().contains(sels[i]),
    ensures
        first_selected(rules, sels.subrange(i, sels.len() as int)) == first_selected(
            rules,
            sels.subrange(i + 1, sels.len() as int),
        ),
{
    let t = sels.subrange(i, sels.len() as int);
    assert(t[0] == sels[i]);
    assert(t.drop_first() =~= sels.subrange(i + 1, sels.len() as int));
}

/// The rule of `profile` for `output`: the rule of the first of its
/// selectors that the profile has a rule for.
fn matching<'a>(profile: Option<&'a Profile>, output: &OutputIdentity) -> (res: Option<&'a Background>)
    ensures
        rule_of(res) == output_rule(
            match profile {
                Some(p) => Some(*p),
                None => None,
            },
            *output,
        ),
{
    let prof = match profile {
        Some(p) => p,
        None => return None,
    };
    let sels = output.selectors();
    let ghost s = output.spec_selectors();
    let n = sels.len();
    let mut i: usize = 0;
    assert(s.subrange(0, s.len() as int) =~= s);
    while i < n
        invariant
            n == sels@.len(),
            sels.deep_view() == s,
            s == output.spec_selectors(),
            profile == Some(prof),
            i <= n,
            first_selected(prof.output@, s) == first_selected(
                prof.output@,
                s.subrange(i as int, s.len() as int),
            ),
        decreases n - i,
    {
        assert(sels.deep_view()[i as int] == sels@[i as int]@);
        match prof.output.get(&sels[i]) {
            Some(b) => {
                proof {
                    let t = s.subrange(i as int, s.len() as int);
                    assert(t[0] == s[i as int]);
                    assert(t.len() > 0);
                    assert(prof.output@.dom().contains(t[0]));
                    assert(first_selected(prof.output@, t) == Some(prof.output@[t[0]]));
                    assert(b@ == prof.output@[sels@[i as int]@]);
                    assert(rule_of(Some(b)) == first_selected(prof.output@, s));
                }
                return Some(b);
            },
            None => {
                proof {
                    lemma_first_selected_skip(prof.output@, s, i as int);
                }
            },
        }
        i = i + 1;
    }
    assert(s.subrange(n as int, s.len() as int) =~= Seq::<Seq<char>>::empty());
    None
}

impl Registry {
    /// The layers of this registry for `output`, lowest precedence first:
    /// packaged global and output rules, system global and output rules, user
    /// global and output rules, and the runtime override.
    pub open spec fn layers(&self, output: OutputIdentity, runtime: Option<Rule>) -> Seq<
        (Option<Rule>, Source),
    > {
        seq![
            (global_rule(self.packaged), Source::Packaged),
            (output_rule(self.packaged, output), Source::PackagedOutput),
            (global_rule(self.system), Source::System),
            (output_rule(self.system, output), Source::SystemOutput),
            (global_rule(self.user), Source::User),
            (output_rule(self.user, output), Source::UserOutput),
            (runtime, Source::Runtime),
        ]
    }

    /// The background of `output`: each field is taken from the
    /// highest-precedence layer that sets it (see [`Registry::layers`]); a
    /// path set by no layer stays unset, a fit set by no layer is the
    /// default fit.
    pub fn resolve(&self, output: &OutputIdentity, runtime: Option<&Background>) -> (res:
        ResolvedBackground)
        ensures
            res@ == finish(resolve_layers(self.layers(*output, rule_of(runtime)))),
    {
        let mut acc = Pending {
            path: None,
            fit: None,
            path_source: Source::Default,
            fit_source: Source::Default,
        };
        let packaged = match &self.packaged {
            Some(p) => Some(p),
            None => None,
        };
        let system = match &self.system {
            Some(p) => Some(p),
            None => None,
        };
        let user = match &self.user {
            Some(p) => Some(p),
            None => None,
        };
        acc.apply(
            match packaged {
                Some(p) => Some(&p.background),
                None => None,
            },
            Source::Packaged,
        );
        acc.apply(matching(packaged, output), Source::PackagedOutput);
        acc.apply(
            match system {
                Some(p) => Some(&p.background),
                None => None,
            },
            Source::System,
        );
        acc.apply(matching(system, output), Source::SystemOutput);
        acc.apply(
            match user {
                Some(p) => Some(&p.background),
                None => None,
            },
            Source::User,
        );
        acc.apply(matching(user, output), Source::UserOutput);
        acc.apply(runtime, Source::Runtime);
        proof {
            let l = self.layers(*output, rule_of(runtime));
            reveal_with_fuel(resolve_layers, 8);
            assert(l.drop_last().drop_last().drop_last().drop_last().drop_last().drop_last().drop_last()
                =~= Seq::<(Option<Rule>, Source)>::empty());
        }
        let fit = match acc.fit {
            Some(f) => f,
            None => Fit::default(),
        };
        ResolvedBackground {
            path: acc.path,
            fit,
            path_source: acc.path_source,
            fit_source: acc.fit_source,
        }
    }
}

} // verus!

verus! {

/// The layer sets a path.
pub open spec fn sets_path(layer: (Option<Rule>, Source)) -> bool {
    layer.0 matches Some(r) && r.path is Some
}

/// The layer sets a fit.
pub open spec fn sets_fit(layer: (Option<Rule>, Source)) -> bool {
    layer.0 matches Some(r) && r.fit is Some
}

/// The path a layer sets, if any.
pub open spec fn layer_path(layer: (Option<Rule>, Source)) -> Option<Seq<char>> {
    match layer.0 {
        Some(r) => r.path,
        None => None,
    }
}

/// The fit a layer sets, if any.
pub open spec fn layer_fit(layer: (Option<Rule>, Source)) -> Option<Fit> {
    match layer.0 {
        Some(r) => r.fit,
        None => None,
    }
}

proof fn lemma_path_from_highest_layer(layers: Seq<(Option<Rule>, Source)>)
    ensures
        (forall|i: int| 0 <= i < layers.len() ==> !sets_path(#[trigger] layers[i])) ==> {
            &&& resolve_layers(layers).path is None
            &&& resolve_layers(layers).path_source == Source::Default
        },
        forall|i: int|
            0 <= i < layers.len() && sets_path(#[trigger] layers[i]) && (forall|j: int|
                i < j < layers.len() ==> !sets_path(#[trigger] layers[j])) ==> {
                &&& resolve_layers(layers).path == layer_path(layers[i])
                &&& resolve_layers(layers).path_source == layers[i].1
            },
    decreases layers.len(),
{
    if layers.len() > 0 {
        let t = layers.drop_last();
        let n = layers.len() - 1;
        lemma_path_from_highest_layer(t);
        let r = resolve_layers(layers);
        let rt = resolve_layers(t);
        assert(r == apply_layer(rt, layers[n].0, layers[n].1));
        if !sets_path(layers[n]) {
            assert(r.path == rt.path && r.path_source == rt.path_source);
        }
        if forall|i: int| 0 <= i < layers.len() ==> !sets_path(#[trigger] layers[i]) {
            assert(!sets_path(layers[n]));
            assert forall|i: int| 0 <= i < t.len() implies !sets_path(#[trigger] t[i]) by {
                assert(t[i] == layers[i]);
                assert(!sets_path(layers[i]));
            }
        }
        assert forall|i: int|
            0 <= i < layers.len() && sets_path(#[trigger] layers[i]) && (forall|j: int|
                i < j < layers.len() ==> !sets_path(#[trigger] layers[j])) implies {
            &&& r.path == layer_path(layers[i])
            &&& r.path_source == layers[i].1
        } by {
            if i < n {
                assert(!sets_path(layers[n]));
                assert(t[i] == layers[i]);
                assert(sets_path(t[i]));
                assert forall|j: int| i < j < t.len() implies !sets_path(#[trigger] t[j]) by {
                    assert(t[j] == layers[j]);
                    assert(!sets_path(layers[j]));
                }
            }
        }
    }
}

proof fn lemma_fit_from_highest_layer(layers: Seq<(Option<Rule>, Source)>)
    ensures
        (forall|i: int| 0 <= i < layers.len() ==> !sets_fit(#[trigger] layers[i])) ==> {
            &&& resolve_layers(layers).fit is None
            &&& resolve_layers(layers).fit_source == Source::Default
        },
        forall|i: int|
            0 <= i < layers.len() && sets_fit(#[trigger] layers[i]) && (forall|j: int|
                i < j < layers.len() ==> !sets_fit(#[trigger] layers[j])) ==> {
                &&& resolve_layers(layers).fit == layer_fit(layers[i])
                &&& resolve_layers(layers).fit_source == layers[i].1
            },
    decreases layers.len(),
{
    if layers.len() > 0 {
        let t = layers.drop_last();
        let n = layers.len() - 1;
        lemma_fit_from_highest_layer(t);
        let r = resolve_layers(layers);
        let rt = resolve_layers(t);
        assert(r == apply_layer(rt, layers[n].0, layers[n].1));
        if !sets_fit(layers[n]) {
            assert(r.fit == rt.fit && r.fit_source == rt.fit_source);
        }
        if forall|i: int| 0 <= i < layers.len() ==> !sets_fit(#[trigger] layers[i]) {
            assert(!sets_fit(layers[n]));
            assert forall|i: int| 0 <= i < t.len() implies !sets_fit(#[trigger] t[i]) by {
                assert(t[i] == layers[i]);
                assert(!sets_fit(layers[i]));
            }
        }
        assert forall|i: int|
            0 <= i < layers.len() && sets_fit(#[trigger] layers[i]) && (forall|j: int|
                i < j < layers.len() ==> !sets_fit(#[trigger] layers[j])) implies {
            &&& r.fit == layer_fit(layers[i])
            &&& r.fit_source == layers[i].1
        } by {
            if i < n {
                assert(!sets_fit(layers[n]));
                assert(t[i] == layers[i]);
                assert(sets_fit(t[i]));
                assert forall|j: int| i < j < t.len() implies !sets_fit(#[trigger] t[j]) by {
                    assert(t[j] == layers[j]);
                    assert(!sets_fit(layers[j]));
                }
            }
        }
    }
}

/// Each field is resolved from the highest layer that sets it: where no
/// layer sets the path, it stays unset and comes from `Source::Default`;
/// where some layer sets it, the path and its source are those of the
/// highest such layer. The same holds of the fit.
pub proof fn resolution_takes_each_field_from_highest_layer(layers: Seq<(Option<Rule>, Source)>)
    ensures
        (forall|i: int| 0 <= i < layers.len() ==> !sets_path(#[trigger] layers[i])) ==> {
            &&& resolve_layers(layers).path is None
            &&& resolve_layers(layers).path_source == Source::Default
        },
        forall|i: int|
            0 <= i < layers.len() && sets_path(#[trigger] layers[i]) && (forall|j: int|
                i < j < layers.len() ==> !sets_path(#[trigger] layers[j])) ==> {
                &&& resolve_layers(layers).path == layer_path(layers[i])
                &&& resolve_layers(layers).path_source == layers[i].1
            },
        (forall|i: int| 0 <= i < layers.len() ==> !sets_fit(#[trigger] layers[i])) ==> {
            &&& resolve_layers(layers).fit is None
            &&& resolve_layers(layers).fit_source == Source::Default
        },
        forall|i: int|
            0 <= i < layers.len() && sets_fit(#[trigger] layers[i]) && (forall|j: int|
                i < j < layers.len() ==> !sets_fit(#[trigger] layers[j])) ==> {
                &&& resolve_layers(layers).fit == layer_fit(layers[i])
                &&& resolve_layers(layers).fit_source == layers[i].1
            },
{
    lemma_path_from_highest_layer(layers);
    lemma_fit_from_highest_layer(layers);
}

/// The fields are resolved independently: two layer sequences with the same
/// sources and the same paths resolve to the same path from the same layer,
/// whatever their fits; and likewise for the fit.
pub proof fn resolution_is_fieldwise(
    a: Seq<(Option<Rule>, Source)>,
    b: Seq<(Option<Rule>, Source)>,
)
    requires
        a.len() == b.len(),
        forall|i: int| 0 <= i < a.len() ==> (#[trigger] a[i]).1 == b[i].1,
    ensures
        (forall|i: int| 0 <= i < a.len() ==> layer_path(#[trigger] a[i]) == layer_path(b[i])) ==> {
            &&& resolve_layers(a).path == resolve_layers(b).path
            &&& resolve_layers(a).path_source == resolve_layers(b).path_source
        },
        (forall|i: int| 0 <= i < a.len() ==> layer_fit(#[trigger] a[i]) == layer_fit(b[i])) ==> {
            &&& resolve_layers(a).fit == resolve_layers(b).fit
            &&& resolve_layers(a).fit_source == resolve_layers(b).fit_source
        },
    decreases a.len(),
{
    if a.len() > 0 {
        let a2 = a.drop_last();
        let b2 = b.drop_last();
        assert forall|i: int| 0 <= i < a2.len() implies (#[trigger] a2[i]).1 == b2[i].1 by {
            assert(a2[i] == a[i] && b2[i] == b[i]);
        }
        resolution_is_fieldwise(a2, b2);
        if forall|i: int| 0 <= i < a.len() ==> layer_path(#[trigger] a[i]) == layer_path(b[i]) {
            assert forall|i: int| 0 <= i < a2.len() implies layer_path(#[trigger] a2[i])
                == layer_path(b2[i]) by {
                assert(a2[i] == a[i] && b2[i] == b[i]);
            }
            assert(layer_path(a[a.len() - 1]) == layer_path(b[b.len() - 1]));
        }
        if forall|i: int| 0 <= i < a.len() ==> layer_fit(#[trigger] a[i]) == layer_fit(b[i]) {
            assert forall|i: int| 0 <= i < a2.len() implies layer_fit(#[trigger] a2[i])
                == layer_fit(b2[i]) by {
                assert(a2[i] == a[i] && b2[i] == b[i]);
            }
            assert(layer_fit(a[a.len() - 1]) == layer_fit(b[b.len() - 1]));
        }
    }
}

/// A runtime override takes precedence over every installed layer: a path
/// or fit it sets is the resolved one, from `Source::Runtime`.
pub proof fn runtime_override_wins(reg: Registry, output: OutputIdentity, runtime: Rule)
    ensures
        ({
            let res = finish(resolve_layers(reg.layers(output, Some(runtime))));
            &&& runtime.path is Some ==> res.path == runtime.path && res.path_source
                == Source::Runtime
            &&& runtime.fit matches Some(f) ==> res.fit == f && res.fit_source == Source::Runtime
        }),
{
    let l = reg.layers(output, Some(runtime));
    assert(l.last() == (Some(runtime), Source::Runtime));
}

/// Within one layer, the rule for an output's connector takes precedence
/// over the rule for its description, and a missing layer has no rule.
pub proof fn connector_rule_precedes_description_rule(profile: Option<Profile>, output: OutputIdentity)
    ensures
        profile is None ==> output_rule(profile, output) is None,
        profile matches Some(p) ==> output_rule(profile, output) == if p.output@.dom().contains(
            output.connector@,
        ) {
            Some(p.output@[output.connector@])
        } else {
            match output.description.deep_view() {
                Some(d) => if p.output@.dom().contains(desc_prefix() + d) {
                    Some(p.output@[desc_prefix() + d])
                } else {
                    None
                },
                None => None,
            }
        },
{
    reveal_with_fuel(first_selected, 3);
    let s = output.spec_selectors();
    if let Some(d) = output.description.deep_view() {
        assert(s.drop_first() =~= seq![desc_prefix() + d]);
        assert(s.drop_first().drop_first() =~= Seq::<Seq<char>>::empty());
    } else {
        assert(s.drop_first() =~= Seq::<Seq<char>>::empty());
    }
}

} // verus!

verus! {

/// The path a rule that may be missing sets, if any.
pub open spec fn path_in(rule: Option<Rule>) -> Option<Seq<char>> {
    match rule {
        Some(r) => r.path,
        None => None,
    }
}

/// The fit a rule that may be missing sets, if any.
pub open spec fn fit_in(rule: Option<Rule>) -> Option<Fit> {
    match rule {
        Some(r) => r.fit,
        None => None,
    }
}

/// The layer contract: each field is taken from the first of these that
/// sets it, highest precedence first: the runtime override, the user's
/// output rule, the user's global preference, the system output rule, the
/// system global default, the packaged output rule, the packaged global
/// default; a path set by none stays unset, a fit set by none is `Fill`.
/// Each field's source names the layer it came from (`Default` for none).
pub proof fn resolution_follows_layer_precedence(
    reg: Registry,
    output: OutputIdentity,
    runtime: Option<Rule>,
)
    ensures
        ({
            let res = finish(resolve_layers(reg.layers(output, runtime)));
            let rt = runtime;
            let global = |prof: Option<Profile>|
                match prof {
                    Some(q) => Some(q.background@),
                    None => None,
                };
            let for_output = |prof: Option<Profile>|
                match prof {
                    Some(q) => if q.output@.dom().contains(output.connector@) {
                        Some(q.output@[output.connector@])
                    } else {
                        match output.description.deep_view() {
                            Some(d) => if q.output@.dom().contains(
                                seq!['d', 'e', 's', 'c', ':'] + d,
                            ) {
                                Some(q.output@[seq!['d', 'e', 's', 'c', ':'] + d])
                            } else {
                                None
                            },
                            None => None,
                        }
                    },
                    None => None,
                };
            let uo = for_output(reg.user);
            let ug = global(reg.user);
            let so = for_output(reg.system);
            let sg = global(reg.system);
            let po = for_output(reg.packaged);
            let pg = global(reg.packaged);
            &&& (res.path, res.path_source) == if path_in(rt) is Some {
                (path_in(rt), Source::Runtime)
            } else if path_in(uo) is Some {
                (path_in(uo), Source::UserOutput)
            } else if path_in(ug) is Some {
                (path_in(ug), Source::User)
            } else if path_in(so) is Some {
                (path_in(so), Source::SystemOutput)
            } else if path_in(sg) is Some {
                (path_in(sg), Source::System)
            } else if path_in(po) is Some {
                (path_in(po), Source::PackagedOutput)
            } else if path_in(pg) is Some {
                (path_in(pg), Source::Packaged)
            } else {
                (None, Source::Default)
            }
            &&& (res.fit, res.fit_source) == if fit_in(rt) is Some {
                (fit_in(rt)->0, Source::Runtime)
            } else if fit_in(uo) is Some {
                (fit_in(uo)->0, Source::UserOutput)
            } else if fit_in(ug) is Some {
                (fit_in(ug)->0, Source::User)
            } else if fit_in(so) is Some {
                (fit_in(so)->0, Source::SystemOutput)
            } else if fit_in(sg) is Some {
                (fit_in(sg)->0, Source::System)
            } else if fit_in(po) is Some {
                (fit_in(po)->0, Source::PackagedOutput)
            } else if fit_in(pg) is Some {
                (fit_in(pg)->0, Source::Packaged)
            } else {
                (Fit::Fill, Source::Default)
            }
        }),
{
    connector_rule_precedes_description_rule(reg.user, output);
    connector_rule_precedes_description_rule(reg.system, output);
    connector_rule_precedes_description_rule(reg.packaged, output);
    let l = reg.layers(output, runtime);
    reveal_with_fuel(resolve_layers, 8);
    assert(l.drop_last().drop_last().drop_last().drop_last().drop_last().drop_last().drop_last()
        =~= Seq::<(Option<Rule>, Source)>::empty());
}

/// The user's global preference beats everything the system and packaged
/// layers set, unless the user's rule for the output or the runtime
/// override sets a path.
pub proof fn user_preference_beats_system_and_packaged(
    reg: Registry,
    output: OutputIdentity,
    runtime: Option<Rule>,
    p: Seq<char>,
)
    requires
        reg.user matches Some(u) && u.background@.path == Some(p) && (u.output@.dom().contains(
            output.connector@,
        ) ==> u.output@[output.connector@].path is None) && (!u.output@.dom().contains(
            output.connector@,
        ) ==> (output.description.deep_view() matches Some(d) ==> (u.output@.dom().contains(
            seq!['d', 'e', 's', 'c', ':'] + d,
        ) ==> u.output@[seq!['d', 'e', 's', 'c', ':'] + d].path is None))),
        path_in(runtime) is None,
    ensures
        finish(resolve_layers(reg.layers(output, runtime))).path == Some(p),
        finish(resolve_layers(reg.layers(output, runtime))).path_source == Source::User,
{
    resolution_follows_layer_precedence(reg, output, runtime);
}

} // verus!
