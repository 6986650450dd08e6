//! Prepared background bundles published by the producer, and the lookup of
//! an exact prepared match for an output.

use vstd::prelude::*;

use crate::error::Error;
use crate::model::{Fit, OutputIdentity};
use crate::paths::{base_directory, base_directory_spec, is_absolute_path, is_relative, join_path, join_path_spec};
use crate::BUNDLE_VERSION;

verus! {

/// Memory layout of the pixels of a prepared asset.
#[derive(Debug, Clone, Copy, PartialEq, Eq, Hash, Structural)]
pub enum PixelFormat {
    /// Four bytes per pixel: red, green, blue, alpha.
    Rgba8,
    /// Four bytes per pixel in little-endian XRGB8888 memory order: blue,
    /// green, red, unused.
    Xrgb8888Le,
}

impl Default for PixelFormat {
    fn default() -> (f: PixelFormat)
        ensures
            f == PixelFormat::Rgba8,
    {
        PixelFormat::Rgba8
    }
}

/// The abstract content of a [`PreparedBackground`].
pub struct PreparedEntry {
    pub selectors: Seq<Seq<char>>,
    pub width: u32,
    pub height: u32,
    pub fit: Fit,
    pub format: PixelFormat,
    pub asset: Seq<char>,
}

/// A prepared background: pixels already laid out for outputs with one of
/// `selectors`, at `width` x `height`, with `fit`.
#[derive(Debug, Clone, PartialEq, Eq)]
pub struct PreparedBackground {
    pub selectors: Vec<String>,
    pub width: u32,
    pub height: u32,
    pub fit: Fit,
    pub format: PixelFormat,
    pub asset: String,
}

impl View for PreparedBackground {
    type V = PreparedEntry;

    open spec fn view(&self) -> PreparedEntry {
        PreparedEntry {
            selectors: self.selectors.deep_view(),
            width: self.width,
            height: self.height,
            fit: self.fit,
            format: self.format,
            asset: self.asset@,
        }
    }
}

/// A producer-owned bundle of prepared backgrounds. Consumers only read it.
#[derive(Debug, Clone, PartialEq, Eq)]
pub struct PreparedBundle {
    pub version: u32,
    pub tokens: Option<String>,
    pub backgrounds: Vec<PreparedBackground>,
}

impl Default for PreparedBundle {
    fn default() -> (b: PreparedBundle)
        ensures
            b.version == BUNDLE_VERSION,
            b.tokens is None,
            b.backgrounds@.len() == 0,
    {
        PreparedBundle { version: BUNDLE_VERSION, tokens: None, backgrounds: Vec::new() }
    }
}

/// An entry is an exact match for an output addressed by `sels`: same
/// geometry and fit, and one of the output's selectors among its selectors.
pub open spec fn entry_matches(
    e: PreparedEntry,
    sels: Seq<Seq<char>>,
    width: u32,
    height: u32,
    fit: Fit,
) -> bool {
    &&& e.width == width
    &&& e.height == height
    &&& e.fit == fit
    &&& exists|i: int| 0 <= i < sels.len() && e.selectors.contains(#[trigger] sels[i])
}

/// A path relative to `base` where it is relative; an absolute path as is.
pub open spec fn resolve_against(p: Seq<char>, base: Seq<char>) -> Seq<char> {
    if is_absolute_path(p) {
        p
    } else {
        join_path_spec(base, p)
    }
}

fn contains_string(v: &Vec<String>, s: &String) -> (res: bool)
    ensures
        res == v.deep_view().contains(s@),
{
    let n = v.len();
    let mut i: usize = 0;
    while i < n
        invariant
            n == v@.len(),
            i <= n,
            forall|j: int| 0 <= j < i ==> v@[j]@ != s@,
        decreases n - i,
    {
        if v[i] == *s {
            assert(v.deep_view()[i as int] == s@);
            return true;
        }
        i = i + 1;
    }
    assert forall|j: int| 0 <= j < v.deep_view().len() implies v.deep_view()[j] != s@ by {
        assert(v.deep_view()[j] == v@[j]@);
    }
    false
}

fn shares_selector(entry: &PreparedBackground, sels: &Vec<String>) -> (res: bool)
    ensures
        res == exists|i: int|
            0 <= i < sels.deep_view().len() && entry.selectors.deep_view().contains(
                #[trigger] sels.deep_view()[i],
            ),
{
    let n = sels.len();
    let mut i: usize = 0;
    while i < n
        invariant
            n == sels@.len(),
            i <= n,
            forall|j: int|
                0 <= j < i ==> !entry.selectors.deep_view().contains(#[trigger] sels.deep_view()[j]),
        decreases n - i,
    {
        assert(sels.deep_view()[i as int] == sels@[i as int]@);
        if contains_string(&entry.selectors, &sels[i]) {
            return true;
        }
        i = i + 1;
    }
    false
}

impl PreparedBundle {
    /// The first prepared background that exactly matches `output` at
    /// `width` x `height` with `fit`, if any.
    pub fn resolve(&self, output: &OutputIdentity, width: u32, height: u32, fit: Fit) -> (res:
        Option<&PreparedBackground>)
        ensures
            res is None <==> forall|k: int|
                0 <= k < self.backgrounds@.len() ==> !entry_matches(
                    #[trigger] self.backgrounds@[k]@,
                    output.spec_selectors(),
                    width,
                    height,
                    fit,
                ),
            res matches Some(b) ==> b.width == width && b.height == height && b.fit == fit,
            res matches Some(b) ==> exists|k: int|
                0 <= k < self.backgrounds@.len() && *b == self.backgrounds@[k] && entry_matches(
                    #[trigger] self.backgrounds@[k]@,
                    output.spec_selectors(),
                    width,
                    height,
                    fit,
                ) && forall|j: int|
                    0 <= j < k ==> !entry_matches(
                        #[trigger] self.backgrounds@[j]@,
                        output.spec_selectors(),
                        width,
                        height,
                        fit,
                    ),
    {
        let sels = output.selectors();
        let n = self.backgrounds.len();
        let mut k: usize = 0;
        while k < n
            invariant
                n == self.backgrounds@.len(),
                k <= n,
                sels.deep_view() == output.spec_selectors(),
                forall|j: int|
                    0 <= j < k ==> !entry_matches(
                        #[trigger] self.backgrounds@[j]@,
                        output.spec_selectors(),
                        width,
                        height,
                        fit,
                    ),
            decreases n - k,
        {
            let b = &self.backgrounds[k];
            if b.width == width && b.height == height && b.fit == fit && shares_selector(b, &sels) {
                proof {
                    let ss = sels.deep_view();
                    let i = choose|i: int|
                        0 <= i < ss.len() && b.selectors.deep_view().contains(#[trigger] ss[i]);
                    assert(output.spec_selectors()[i] == ss[i]);
                    assert(entry_matches(
                        self.backgrounds@[k as int]@,
                        output.spec_selectors(),
                        width,
                        height,
                        fit,
                    ));
                }
                return Some(b);
            }
            k = k + 1;
        }
        None
    }

    /// Accepts the bundle manifest parsed from the file at `path`: a manifest
    /// of another version is refused with `Error::Version`; otherwise the
    /// relative token and asset paths are resolved against the directory of
    /// `path`.
    pub fn load(path: &str, parsed: PreparedBundle) -> (res: Result<PreparedBundle, Error>)
        ensures
            res is Ok <==> parsed.version == BUNDLE_VERSION,
            res matches Err(e) ==> e matches Error::Version(v) && v == parsed.version,
            res matches Ok(b) ==> {
                let base = base_directory_spec(path@);
                &&& b.version == parsed.version
                &&& b.tokens.deep_view() == match parsed.tokens.deep_view() {
                    Some(t) => Some(resolve_against(t, base)),
                    None => None,
                }
                &&& b.backgrounds@.len() == parsed.backgrounds@.len()
                &&& forall|i: int|
                    0 <= i < b.backgrounds@.len() ==> (#[trigger] b.backgrounds@[i])@ == (
                    PreparedEntry {
                        asset: resolve_against(parsed.backgrounds@[i]@.asset, base),
                        ..parsed.backgrounds@[i]@
                    })
            },
    {
        if parsed.version != BUNDLE_VERSION {
            return Err(Error::Version(parsed.version));
        }
        let root = base_directory(path);
        let tokens = match &parsed.tokens {
            Some(t) => if is_relative(t.as_str()) {
                Some(join_path(root.as_str(), t.as_str()))
            } else {
                Some(t.clone())
            },
            None => None,
        };
        let ghost orig = parsed.backgrounds@;
        let mut rest = parsed.backgrounds;
        let mut done: Vec<PreparedBackground> = Vec::new();
        let n = rest.len();
        while rest.len() > 0
            invariant
                n == orig.len(),
                done@.len() + rest@.len() == n,
                rest@ == orig.skip(done@.len() as int),
                forall|i: int|
                    0 <= i < done@.len() ==> (#[trigger] done@[i])@ == (PreparedEntry {
                        asset: resolve_against(orig[i]@.asset, root@),
                        ..orig[i]@
                    }),
            decreases rest@.len(),
        {
            let ghost k = done@.len() as int;
            let mut e = rest.remove(0);
            assert(e == orig[k]);
            if is_relative(e.asset.as_str()) {
                e.asset = join_path(root.as_str(), e.asset.as_str());
            }
            done.push(e);
            assert(rest@ =~= orig.skip(done@.len() as int));
        }
        Ok(PreparedBundle { version: parsed.version, tokens, backgrounds: done })
    }
}

} // verus!

verus! {

/// A prepared entry matches an output exactly when it has the requested
/// width, height and fit, and lists the output's connector or, where the
/// output has a description `d`, the selector `desc:d`.
pub proof fn entry_match_is_exact(
    e: PreparedEntry,
    output: OutputIdentity,
    width: u32,
    height: u32,
    fit: Fit,
)
    ensures
        entry_matches(e, output.spec_selectors(), width, height, fit) <==> {
            &&& e.width == width
            &&& e.height == height
            &&& e.fit == fit
            &&& {
                ||| e.selectors.contains(output.connector@)
                ||| output.description.deep_view() matches Some(d) && e.selectors.contains(
                    seq!['d', 'e', 's', 'c', ':'] + d,
                )
            }
        },
{
    let s = output.spec_selectors();
    assert(s[0] == output.connector@);
    if let Some(d) = output.description.deep_view() {
        assert(s[1] == seq!['d', 'e', 's', 'c', ':'] + d);
        assert(s.len() == 2);
    } else {
        assert(s.len() == 1);
    }
}

} // verus!

verus! {

/// Loading a bundle keeps absolute paths and turns a relative path `p` into
/// `base` followed by `p`, with one `/` between them unless `base` is empty
/// or already ends in one.
pub proof fn bundle_paths_resolve_against_the_manifest_directory(p: Seq<char>, base: Seq<char>)
    ensures
        p.len() > 0 && p[0] == '/' ==> resolve_against(p, base) == p,
        !(p.len() > 0 && p[0] == '/') ==> resolve_against(p, base) == if base.len() == 0
            || base[base.len() - 1] == '/' {
            base + p
        } else {
            base + seq!['/'] + p
        },
{
}

} // verus!
