//! Plain values shared by profiles, resolution and prepared bundles.

use vstd::prelude::*;
use vstd::std_specs::cmp::PartialEqSpecImpl;
use vstd::string::StringExecFns;

use crate::paths::{is_absolute_path, is_relative, join_path, join_path_spec};

verus! {

/// How a background image is laid out on an output.
#[derive(Debug, Clone, Copy, PartialEq, Eq, Hash, Structural)]
pub enum Fit {
    Fill,
    Fit,
    Stretch,
    Center,
    Tile,
}

impl Default for Fit {
    fn default() -> (fit: Fit)
        ensures
            fit == Fit::Fill,
    {
        Fit::Fill
    }
}

/// The abstract content of a [`Background`] rule: an optional image path and
/// an optional fit mode.
pub struct Rule {
    pub path: Option<Seq<char>>,
    pub fit: Option<Fit>,
}

/// One background rule of a layer. Each field is optional: a missing field
/// leaves the decision to lower layers.
#[derive(Debug, Clone)]
pub struct Background {
    pub path: Option<String>,
    pub fit: Option<Fit>,
}

impl View for Background {
    type V = Rule;

    open spec fn view(&self) -> Rule {
        Rule { path: self.path.deep_view(), fit: self.fit }
    }
}

pub(crate) fn same_path(a: &Option<String>, b: &Option<String>) -> (res: bool)
    ensures
        res == (a.deep_view() == b.deep_view()),
{
    match a {
        Some(x) => match b {
            Some(y) => {
                let same = *x == *y;
                assert(same ==> a.deep_view() == b.deep_view());
                assert(a.deep_view() == b.deep_view() ==> x@ == y@);
                same
            },
            None => false,
        },
        None => b.is_none(),
    }
}

fn same_fit(a: Option<Fit>, b: Option<Fit>) -> (res: bool)
    ensures
        res == (a == b),
{
    match (a, b) {
        (Some(x), Some(y)) => x == y,
        (None, None) => true,
        _ => false,
    }
}

impl PartialEq for Background {
    fn eq(&self, other: &Self) -> (res: bool) {
        same_path(&self.path, &other.path) && same_fit(self.fit, other.fit)
    }
}

impl Eq for Background {

}

impl PartialEqSpecImpl for Background {
    open spec fn obeys_eq_spec() -> bool {
        true
    }

    open spec fn eq_spec(&self, other: &Background) -> bool {
        self@ == other@
    }
}

impl Default for Background {
    fn default() -> (b: Background)
        ensures
            b@ == (Rule { path: None, fit: None }),
    {
        Background { path: None, fit: None }
    }
}

/// A copy of an optional path with the same content.
pub fn copy_path(path: &Option<String>) -> (res: Option<String>)
    ensures
        res.deep_view() == path.deep_view(),
{
    match path {
        Some(p) => Some(p.clone()),
        None => None,
    }
}

impl Background {
    /// A rule with the same content as `self`.
    pub fn duplicate(&self) -> (res: Background)
        ensures
            res@ == self@,
    {
        Background { path: copy_path(&self.path), fit: self.fit }
    }
}

/// The layer a resolved field was taken from, highest precedence first.
#[derive(Debug, Clone, Copy, PartialEq, Eq, Structural)]
pub enum Source {
    Runtime,
    UserOutput,
    User,
    SystemOutput,
    System,
    PackagedOutput,
    Packaged,
    Default,
}

/// The identity of a monitor output: its connector name and, where known,
/// its description.
#[derive(Debug, Clone)]
pub struct OutputIdentity {
    pub connector: String,
    pub description: Option<String>,
}

/// The prefix of a description selector.
pub open spec fn desc_prefix() -> Seq<char> {
    seq!['d', 'e', 's', 'c', ':']
}

/// The selectors by which an output can be addressed, most specific last:
/// the connector, then `desc:` followed by the description.
pub open spec fn selectors_of(connector: Seq<char>, description: Option<Seq<char>>) -> Seq<Seq<char>> {
    match description {
        Some(d) => seq![connector, desc_prefix() + d],
        None => seq![connector],
    }
}

impl PartialEq for OutputIdentity {
    fn eq(&self, other: &Self) -> (res: bool) {
        self.connector == other.connector && same_path(&self.description, &other.description)
    }
}

impl Eq for OutputIdentity {

}

impl PartialEqSpecImpl for OutputIdentity {
    open spec fn obeys_eq_spec() -> bool {
        true
    }

    open spec fn eq_spec(&self, other: &OutputIdentity) -> bool {
        self.connector@ == other.connector@ && self.description.deep_view()
            == other.description.deep_view()
    }
}

impl Default for OutputIdentity {
    fn default() -> (o: OutputIdentity)
        ensures
            o.connector@ == Seq::<char>::empty(),
            o.description is None,
    {
        OutputIdentity { connector: String::new(), description: None }
    }
}

impl OutputIdentity {
    /// The selectors of this output, connector first.
    pub open spec fn spec_selectors(&self) -> Seq<Seq<char>> {
        selectors_of(self.connector@, self.description.deep_view())
    }

    /// Creates an output identity from a connector name and an optional
    /// description.
    pub fn new(connector: &str, description: Option<String>) -> (o: OutputIdentity)
        ensures
            o.connector@ == connector@,
            o.description == description,
    {
        OutputIdentity { connector: connector.to_owned(), description }
    }

    /// The selectors of this output: the connector, then `desc:` followed by
    /// the description where there is one.
    pub fn selectors(&self) -> (res: Vec<String>)
        ensures
            res.deep_view() == self.spec_selectors(),
    {
        let mut res: Vec<String> = Vec::new();
        res.push(self.connector.clone());
        match &self.description {
            Some(d) => {
                let mut s = String::from_str("desc:");
                proof {
                    reveal_strlit("desc:");
                    assert("desc:"@ =~= desc_prefix());
                }
                s.append(d.as_str());
                res.push(s);
            },
            None => {},
        }
        assert(res.deep_view() =~= self.spec_selectors());
        res
    }
}

} // verus!

verus! {

/// A rule with a relative path resolved against `base`; absolute paths and
/// the fit are kept.
pub open spec fn relativize_rule(r: Rule, base: Seq<char>) -> Rule {
    match r.path {
        Some(p) => if is_absolute_path(p) {
            r
        } else {
            Rule { path: Some(join_path_spec(base, p)), fit: r.fit }
        },
        None => r,
    }
}

impl Background {
    /// Resolves a relative path of this rule against `base`.
    pub fn relativize(&mut self, base: &str)
        ensures
            final(self)@ == relativize_rule(old(self)@, base@),
            final(self).fit == old(self).fit,
            old(self).path is None ==> final(self).path is None,
    {
        let joined = match &self.path {
            Some(p) => if is_relative(p.as_str()) {
                Some(join_path(base, p.as_str()))
            } else {
                None
            },
            None => None,
        };
        match joined {
            Some(j) => {
                self.path = Some(j);
            },
            None => {},
        }
    }
}

} // verus!

verus! {

/// Resolving a rule's path against an absolute base a second time changes
/// nothing: the first resolution already made the path absolute.
pub proof fn relativize_against_absolute_base_is_idempotent(r: Rule, base: Seq<char>)
    requires
        is_absolute_path(base),
    ensures
        relativize_rule(relativize_rule(r, base), base) == relativize_rule(r, base),
{
    if let Some(p) = r.path {
        if !is_absolute_path(p) {
            let j = join_path_spec(base, p);
            assert(j[0] == base[0]);
        }
    }
}

} // verus!

verus! {

/// Resolving a rule against `base` keeps its fit, keeps a missing or
/// absolute path, and turns a relative path `p` into `base` followed by `p`,
/// with one `/` between them unless `base` is empty or already ends in one.
pub proof fn relativize_rewrites_only_relative_paths(r: Rule, base: Seq<char>)
    ensures
        relativize_rule(r, base).fit == r.fit,
        r.path is None ==> relativize_rule(r, base) == r,
        r.path matches Some(p) && p.len() > 0 && p[0] == '/' ==> relativize_rule(r, base) == r,
        r.path is Some && !(r.path->0.len() > 0 && r.path->0[0] == '/') ==> relativize_rule(
            r,
            base,
        ).path == Some(
            if base.len() == 0 || base[base.len() - 1] == '/' {
                base + r.path->0
            } else {
                base + seq!['/'] + r.path->0
            },
        ),
{
}

/// Resolving every rule of a map against `base` keeps the selectors, the
/// fits, and the rules that have no path.
pub proof fn relativize_map_keeps_selectors_and_fits(m: Map<Seq<char>, Rule>, base: Seq<char>)
    ensures
        m.map_values(|r: Rule| relativize_rule(r, base)).dom() == m.dom(),
        forall|k: Seq<char>|
            #[trigger] m.dom().contains(k) ==> m.map_values(|r: Rule| relativize_rule(r, base))[
                k].fit == m[k].fit,
        forall|k: Seq<char>|
            #[trigger] m.dom().contains(k) && m[k].path is None ==> m.map_values(
                |r: Rule| relativize_rule(r, base),
            )[k] == m[k],
{
    assert(m.map_values(|r: Rule| relativize_rule(r, base)).dom() =~= m.dom());
}

} // verus!
