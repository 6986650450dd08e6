//! Per-output background rules of a profile, keyed by output selector.

use vstd::prelude::*;
use vstd::std_specs::cmp::PartialEqSpecImpl;
use vstd::string::StrSliceExecFns;

use crate::model::{relativize_rule, Background, Rule};

verus! {

/// The abstract content of a list of distinct-keyed entries: the map from
/// each key to its rule.
pub open spec fn map_of(s: Seq<(Seq<char>, Rule)>) -> Map<Seq<char>, Rule>
    decreases s.len(),
{
    if s.len() == 0 {
        Map::empty()
    } else {
        map_of(s.drop_last()).insert(s.last().0, s.last().1)
    }
}

/// No key occurs twice.
pub open spec fn keys_unique(s: Seq<(Seq<char>, Rule)>) -> bool {
    forall|i: int, j: int| 0 <= i < j < s.len() ==> #[trigger] s[i].0 != #[trigger] s[j].0
}

proof fn lemma_map_of_absent(s: Seq<(Seq<char>, Rule)>, k: Seq<char>)
    requires
        forall|i: int| 0 <= i < s.len() ==> #[trigger] s[i].0 != k,
    ensures
        !map_of(s).dom().contains(k),
    decreases s.len(),
{
    if s.len() > 0 {
        let t = s.drop_last();
        assert forall|i: int| 0 <= i < t.len() implies #[trigger] t[i].0 != k by {
            assert(t[i] == s[i]);
        }
        lemma_map_of_absent(t, k);
    }
}

proof fn lemma_map_of_index(s: Seq<(Seq<char>, Rule)>, i: int)
    requires
        keys_unique(s),
        0 <= i < s.len(),
    ensures
        map_of(s).dom().contains(s[i].0),
        map_of(s)[s[i].0] == s[i].1,
    decreases s.len(),
{
    let t = s.drop_last();
    if i < s.len() - 1 {
        assert(keys_unique(t)) by {
            assert forall|a: int, b: int| 0 <= a < b < t.len() implies #[trigger] t[a].0
                != #[trigger] t[b].0 by {
                assert(t[a] == s[a] && t[b] == s[b]);
            }
        }
        assert(t[i] == s[i]);
        lemma_map_of_index(t, i);
        assert(s[i].0 != s[s.len() - 1].0);
    }
}

proof fn lemma_map_of_update(s: Seq<(Seq<char>, Rule)>, i: int, v: Rule)
    requires
        keys_unique(s),
        0 <= i < s.len(),
    ensures
        map_of(s.update(i, (s[i].0, v))) == map_of(s).insert(s[i].0, v),
    decreases s.len(),
{
    let u = s.update(i, (s[i].0, v));
    let t = s.drop_last();
    if i == s.len() - 1 {
        assert(u.drop_last() =~= t);
        assert(!map_of(t).dom().contains(s[i].0)) by {
            assert forall|j: int| 0 <= j < t.len() implies #[trigger] t[j].0 != s[i].0 by {
                assert(t[j] == s[j]);
            }
            lemma_map_of_absent(t, s[i].0);
        }
        assert(map_of(u) =~= map_of(s).insert(s[i].0, v));
    } else {
        assert(keys_unique(t)) by {
            assert forall|a: int, b: int| 0 <= a < b < t.len() implies #[trigger] t[a].0
                != #[trigger] t[b].0 by {
                assert(t[a] == s[a] && t[b] == s[b]);
            }
        }
        assert(t[i] == s[i]);
        lemma_map_of_update(t, i, v);
        assert(u.drop_last() =~= t.update(i, (t[i].0, v)));
        assert(s[i].0 != s[s.len() - 1].0);
        assert(map_of(u) =~= map_of(s).insert(s[i].0, v));
    }
}

proof fn lemma_map_of_map_values(
    s: Seq<(Seq<char>, Rule)>,
    t: Seq<(Seq<char>, Rule)>,
    f: spec_fn(Rule) -> Rule,
)
    requires
        s.len() == t.len(),
        forall|i: int| 0 <= i < s.len() ==> (#[trigger] t[i]) == (s[i].0, f(s[i].1)),
    ensures
        map_of(t) == map_of(s).map_values(f),
    decreases s.len(),
{
    if s.len() == 0 {
        assert(map_of(t) =~= map_of(s).map_values(f));
    } else {
        let s2 = s.drop_last();
        let t2 = t.drop_last();
        assert forall|i: int| 0 <= i < s2.len() implies (#[trigger] t2[i]) == (s2[i].0, f(
            s2[i].1,
        )) by {
            assert(t2[i] == t[i] && s2[i] == s[i]);
        }
        lemma_map_of_map_values(s2, t2, f);
        assert(t[t.len() - 1] == (s[s.len() - 1].0, f(s[s.len() - 1].1)));
        assert(map_of(t) =~= map_of(s).map_values(f));
    }
}

proof fn lemma_map_of_dom_len(s: Seq<(Seq<char>, Rule)>)
    requires
        keys_unique(s),
    ensures
        map_of(s).dom().finite(),
        map_of(s).dom().len() == s.len(),
    decreases s.len(),
{
    if s.len() > 0 {
        let t = s.drop_last();
        assert(keys_unique(t)) by {
            assert forall|a: int, b: int| 0 <= a < b < t.len() implies #[trigger] t[a].0
                != #[trigger] t[b].0 by {
                assert(t[a] == s[a] && t[b] == s[b]);
            }
        }
        lemma_map_of_dom_len(t);
        assert forall|j: int| 0 <= j < t.len() implies #[trigger] t[j].0 != s.last().0 by {
            assert(t[j] == s[j]);
        }
        lemma_map_of_absent(t, s.last().0);
        assert(map_of(s).dom() =~= map_of(t).dom().insert(s.last().0));
    }
}

/// `a` comes before `b` in the order of strings: the first differing
/// character is smaller in `a`, or `a` is a proper prefix of `b`. (On UTF-8
/// strings this is the byte order that `str` compares by.)
pub open spec fn key_less(a: Seq<char>, b: Seq<char>) -> bool
    decreases a.len(),
{
    if a.len() == 0 {
        b.len() > 0
    } else if b.len() == 0 {
        false
    } else if a[0] != b[0] {
        a[0] < b[0]
    } else {
        key_less(a.drop_first(), b.drop_first())
    }
}

/// The keys are in strictly increasing order.
pub open spec fn keys_sorted(s: Seq<(Seq<char>, Rule)>) -> bool {
    forall|i: int, j: int| 0 <= i < j < s.len() ==> key_less(#[trigger] s[i].0, #[trigger] s[j].0)
}

proof fn lemma_key_less_irreflexive(a: Seq<char>)
    ensures
        !key_less(a, a),
    decreases a.len(),
{
    if a.len() > 0 {
        lemma_key_less_irreflexive(a.drop_first());
    }
}

proof fn lemma_key_less_transitive(a: Seq<char>, b: Seq<char>, c: Seq<char>)
    requires
        key_less(a, b),
        key_less(b, c),
    ensures
        key_less(a, c),
    decreases a.len(),
{
    if a.len() > 0 && b.len() > 0 && c.len() > 0 && a[0] == b[0] && b[0] == c[0] {
        lemma_key_less_transitive(a.drop_first(), b.drop_first(), c.drop_first());
    }
}

proof fn lemma_key_less_total(a: Seq<char>, b: Seq<char>)
    ensures
        a == b || key_less(a, b) || key_less(b, a),
    decreases a.len(),
{
    if a.len() == 0 && b.len() == 0 {
        assert(a =~= b);
    }
    if a.len() > 0 && b.len() > 0 && a[0] == b[0] {
        lemma_key_less_total(a.drop_first(), b.drop_first());
        if a.drop_first() == b.drop_first() {
            assert forall|i: int| 0 <= i < a.len() implies a[i] == b[i] by {
                if i > 0 {
                    assert(a[i] == a.drop_first()[i - 1]);
                    assert(b[i] == b.drop_first()[i - 1]);
                }
            }
            assert(a =~= b);
        }
    }
}

proof fn lemma_sorted_unique(s: Seq<(Seq<char>, Rule)>)
    requires
        keys_sorted(s),
    ensures
        keys_unique(s),
{
    assert forall|i: int, j: int| 0 <= i < j < s.len() implies #[trigger] s[i].0
        != #[trigger] s[j].0 by {
        assert(key_less(s[i].0, s[j].0));
        lemma_key_less_irreflexive(s[i].0);
    }
}

proof fn lemma_map_of_insert(s: Seq<(Seq<char>, Rule)>, p: int, k: Seq<char>, v: Rule)
    requires
        0 <= p <= s.len(),
        forall|i: int| 0 <= i < s.len() ==> #[trigger] s[i].0 != k,
    ensures
        map_of(s.insert(p, (k, v))) == map_of(s).insert(k, v),
    decreases s.len(),
{
    let u = s.insert(p, (k, v));
    if p == s.len() {
        assert(u.drop_last() =~= s);
        assert(map_of(u) =~= map_of(s).insert(k, v));
    } else {
        let t = s.drop_last();
        assert forall|i: int| 0 <= i < t.len() implies #[trigger] t[i].0 != k by {
            assert(t[i] == s[i]);
        }
        lemma_map_of_insert(t, p, k, v);
        assert(u.drop_last() =~= t.insert(p, (k, v)));
        assert(u.last() == s.last());
        assert(s.last().0 != k);
        assert(map_of(u) =~= map_of(s).insert(k, v));
    }
}

proof fn lemma_key_less_skip(a: Seq<char>, b: Seq<char>, i: int)
    requires
        0 <= i < a.len(),
        i < b.len(),
        a[i] == b[i],
    ensures
        key_less(a.skip(i), b.skip(i)) == key_less(a.skip(i + 1), b.skip(i + 1)),
{
    assert(a.skip(i).drop_first() =~= a.skip(i + 1));
    assert(b.skip(i).drop_first() =~= b.skip(i + 1));
}

/// Whether the selector `a` comes before `b` (see [`key_less`]).
pub fn key_precedes(a: &String, b: &String) -> (res: bool)
    ensures
        res == key_less(a@, b@),
{
    let x = a.as_str();
    let y = b.as_str();
    let n = x.unicode_len();
    let m = y.unicode_len();
    let mut i: usize = 0;
    assert(a@.skip(0) =~= a@ && b@.skip(0) =~= b@);
    while i < n && i < m
        invariant
            n == a@.len(),
            m == b@.len(),
            x@ == a@,
            y@ == b@,
            i <= n,
            i <= m,
            key_less(a@, b@) == key_less(a@.skip(i as int), b@.skip(i as int)),
        decreases n - i,
    {
        let c = x.get_char(i);
        let d = y.get_char(i);
        if c != d {
            assert(a@.skip(i as int)[0] == c && b@.skip(i as int)[0] == d);
            return c < d;
        }
        proof {
            lemma_key_less_skip(a@, b@, i as int);
        }
        i = i + 1;
    }
    assert(a@.skip(i as int).len() == n - i && b@.skip(i as int).len() == m - i);
    i == n && i < m
}

/// The background rules of a profile for individual outputs, keyed by output
/// selector (a connector name such as `DP-1`, or `desc:` and a description).
/// Each selector has at most one rule.
#[derive(Debug)]
pub struct OutputMap {
    entries: Vec<(String, Background)>,
}

impl OutputMap {
    /// The entries as abstract (selector, rule) pairs, in selector order.
    pub closed spec fn entries_view(&self) -> Seq<(Seq<char>, Rule)> {
        self.entries@.map_values(|e: (String, Background)| (e.0@, e.1@))
    }

    #[verifier::type_invariant]
    closed spec fn distinct_selectors(&self) -> bool {
        &&& keys_unique(self.entries_view())
        &&& keys_sorted(self.entries_view())
    }

    /// The index of the first entry whose selector does not come before
    /// `key`.
    fn lower_bound(&self, key: &String) -> (res: usize)
        ensures
            res <= self.entries_view().len(),
            forall|j: int| 0 <= j < res ==> key_less(#[trigger] self.entries_view()[j].0, key@),
            res < self.entries_view().len() ==> !key_less(self.entries_view()[res as int].0, key@),
    {
        let n = self.entries.len();
        let mut i: usize = 0;
        while i < n
            invariant
                n == self.entries@.len(),
                i <= n,
                forall|j: int| 0 <= j < i ==> key_less(#[trigger] self.entries_view()[j].0, key@),
            decreases n - i,
        {
            if !key_precedes(&self.entries[i].0, key) {
                return i;
            }
            i = i + 1;
        }
        i
    }

    /// An empty map.
    pub fn new() -> (m: OutputMap)
        ensures
            m@ == Map::<Seq<char>, Rule>::empty(),
    {
        let entries: Vec<(String, Background)> = Vec::new();
        assert(entries@.map_values(|e: (String, Background)| (e.0@, e.1@)) =~= Seq::<
            (Seq<char>, Rule),
        >::empty());
        let m = OutputMap { entries };
        assert(m.entries_view() =~= Seq::<(Seq<char>, Rule)>::empty());
        m
    }

    /// The index of the entry for `key`, if there is one.
    fn position(&self, key: &String) -> (res: Option<usize>)
        ensures
            match res {
                Some(i) => i < self.entries_view().len() && self.entries_view()[i as int].0
                    == key@,
                None => forall|i: int|
                    0 <= i < self.entries_view().len() ==> #[trigger] self.entries_view()[i].0
                        != key@,
            },
    {
        let n = self.entries.len();
        let mut i: usize = 0;
        while i < n
            invariant
                n == self.entries@.len(),
                i <= n,
                forall|j: int|
                    0 <= j < i ==> #[trigger] self.entries_view()[j].0 != key@,
            decreases n - i,
        {
            if self.entries[i].0 == *key {
                return Some(i);
            }
            i = i + 1;
        }
        None
    }

    /// Sets the rule for `key`, returning the rule it replaces, if any.
    pub fn insert(&mut self, key: String, value: Background) -> (res: Option<Background>)
        ensures
            final(self)@ == old(self)@.insert(key@, value@),
            old(self)@.dom().contains(key@) ==> res is Some && res.unwrap()@ == old(self)@[key@],
            !old(self)@.dom().contains(key@) ==> res is None,
    {
        proof {
            use_type_invariant(&*self);
        }
        let ghost s = self.entries_view();
        let ghost k = key@;
        let ghost v = value@;
        let p = self.lower_bound(&key);
        let n = self.entries.len();
        if p < n && self.entries[p].0 == key {
            proof {
                lemma_map_of_index(s, p as int);
                lemma_map_of_update(s, p as int, v);
            }
            let mut entries: Vec<(String, Background)> = Vec::new();
            std::mem::swap(&mut entries, &mut self.entries);
            let old_entry = entries.remove(p);
            entries.insert(p, (key, value));
            proof {
                let e = entries@.map_values(|e: (String, Background)| (e.0@, e.1@));
                assert(e =~= s.update(p as int, (s[p as int].0, v)));
                assert(keys_unique(e));
                assert forall|i: int, j: int| 0 <= i < j < e.len() implies key_less(
                    #[trigger] e[i].0,
                    #[trigger] e[j].0,
                ) by {
                    assert(e[i].0 == s[i].0 && e[j].0 == s[j].0);
                }
            }
            self.entries = entries;
            Some(old_entry.1)
        } else {
            proof {
                assert forall|i: int| 0 <= i < s.len() implies #[trigger] s[i].0 != k by {
                    if i < p {
                        lemma_key_less_irreflexive(k);
                    } else {
                        lemma_key_less_total(s[p as int].0, k);
                        if i > p {
                            assert(key_less(s[p as int].0, s[i].0));
                            if s[i].0 == k {
                                lemma_key_less_transitive(k, s[p as int].0, k);
                                lemma_key_less_irreflexive(k);
                            }
                        }
                    }
                }
                lemma_map_of_absent(s, k);
                lemma_map_of_insert(s, p as int, k, v);
            }
            let mut entries: Vec<(String, Background)> = Vec::new();
            std::mem::swap(&mut entries, &mut self.entries);
            entries.insert(p, (key, value));
            proof {
                let e = entries@.map_values(|e: (String, Background)| (e.0@, e.1@));
                assert(e =~= s.insert(p as int, (k, v)));
                assert forall|i: int, j: int| 0 <= i < j < e.len() implies key_less(
                    #[trigger] e[i].0,
                    #[trigger] e[j].0,
                ) by {
                    if j < p {
                        assert(e[i] == s[i] && e[j] == s[j]);
                    } else if j == p {
                        assert(e[i] == s[i]);
                    } else if i == p {
                        assert(e[j] == s[j - 1]);
                        lemma_key_less_total(s[p as int].0, k);
                        if j - 1 > p {
                            lemma_key_less_transitive(k, s[p as int].0, s[j - 1].0);
                        }
                    } else if i < p {
                        assert(e[i] == s[i] && e[j] == s[j - 1]);
                    } else {
                        assert(e[i] == s[i - 1] && e[j] == s[j - 1]);
                    }
                }
                lemma_sorted_unique(e);
            }
            self.entries = entries;
            None
        }
    }

    /// The (selector, rule) entries, each selector once, in increasing
    /// selector order.
    pub fn entries(&self) -> (res: &Vec<(String, Background)>)
        ensures
            res@.map_values(|e: (String, Background)| (e.0@, e.1@)) == self.entries_view(),
            keys_unique(self.entries_view()),
            keys_sorted(self.entries_view()),
            map_of(self.entries_view()) == self@,
    {
        proof {
            use_type_invariant(self);
        }
        &self.entries
    }

    /// The rule for `key`, if there is one.
    pub fn get(&self, key: &String) -> (res: Option<&Background>)
        ensures
            res is Some <==> self@.dom().contains(key@),
            res matches Some(b) ==> b@ == self@[key@],
    {
        proof {
            use_type_invariant(self);
        }
        match self.position(key) {
            Some(i) => {
                proof {
                    lemma_map_of_index(self.entries_view(), i as int);
                }
                Some(&self.entries[i].1)
            },
            None => {
                proof {
                    lemma_map_of_absent(self.entries_view(), key@);
                }
                None
            },
        }
    }
}

impl OutputMap {
    /// Resolves the relative paths of all rules against `base`.
    pub fn relativize(&mut self, base: &str)
        ensures
            final(self)@ == old(self)@.map_values(|r: Rule| relativize_rule(r, base@)),
    {
        proof {
            use_type_invariant(&*self);
        }
        let ghost s = self.entries_view();
        let mut entries: Vec<(String, Background)> = Vec::new();
        std::mem::swap(&mut entries, &mut self.entries);
        let n = entries.len();
        let mut done: Vec<(String, Background)> = Vec::new();
        let mut i: usize = 0;
        while i < n
            invariant
                n == entries@.len(),
                s == entries@.map_values(|e: (String, Background)| (e.0@, e.1@)),
                i <= n,
                done@.len() == i,
                forall|j: int|
                    0 <= j < i ==> (#[trigger] done@[j]).0@ == entries@[j].0@ && done@[j].1@
                        == relativize_rule(entries@[j].1@, base@),
            decreases n - i,
        {
            let k = entries[i].0.clone();
            let mut b = entries[i].1.duplicate();
            b.relativize(base);
            done.push((k, b));
            i = i + 1;
        }
        proof {
            let f = |r: Rule| relativize_rule(r, base@);
            let t = done@.map_values(|e: (String, Background)| (e.0@, e.1@));
            assert forall|j: int| 0 <= j < s.len() implies (#[trigger] t[j]) == (s[j].0, f(
                s[j].1,
            )) by {}
            assert(keys_unique(t)) by {
                assert forall|a: int, b: int| 0 <= a < b < t.len() implies #[trigger] t[a].0
                    != #[trigger] t[b].0 by {
                    assert(t[a].0 == s[a].0 && t[b].0 == s[b].0);
                }
            }
            lemma_map_of_map_values(s, t, f);
        }
        self.entries = done;
    }
}

impl PartialEq for OutputMap {
    fn eq(&self, other: &Self) -> (res: bool) {
        proof {
            use_type_invariant(self);
            use_type_invariant(other);
            lemma_map_of_dom_len(self.entries_view());
            lemma_map_of_dom_len(other.entries_view());
        }
        let n = self.entries.len();
        if n != other.entries.len() {
            return false;
        }
        let ghost s = self.entries_view();
        let mut i: usize = 0;
        while i < n
            invariant
                n == self.entries@.len(),
                s == self.entries_view(),
                keys_unique(s),
                i <= n,
                forall|j: int|
                    0 <= j < i ==> other@.dom().contains(#[trigger] s[j].0) && other@[s[j].0]
                        == s[j].1,
            decreases n - i,
        {
            match other.get(&self.entries[i].0) {
                Some(b) => {
                    if !(*b == self.entries[i].1) {
                        proof {
                            lemma_map_of_index(s, i as int);
                        }
                        return false;
                    }
                },
                None => {
                    proof {
                        lemma_map_of_index(s, i as int);
                    }
                    return false;
                },
            }
            i = i + 1;
        }
        proof {
            let a = self@;
            let b = other@;
            assert forall|k: Seq<char>| #[trigger] a.dom().contains(k) implies b.dom().contains(k)
                && b[k] == a[k] by {
                if forall|j: int| 0 <= j < s.len() ==> #[trigger] s[j].0 != k {
                    lemma_map_of_absent(s, k);
                    assert(false);
                }
                let j = choose|j: int| 0 <= j < s.len() && #[trigger] s[j].0 == k;
                lemma_map_of_index(s, j);
                assert(other@.dom().contains(s[j].0) && other@[s[j].0] == s[j].1);
            }
            lemma_map_of_dom_len(self.entries_view());
            lemma_map_of_dom_len(other.entries_view());
            assert(a.dom().subset_of(b.dom()));
            assert(a.dom().len() == b.dom().len());
            vstd::set_lib::lemma_subset_equality(a.dom(), b.dom());
            assert(a =~= b);
        }
        true
    }
}

impl Eq for OutputMap {

}

impl PartialEqSpecImpl for OutputMap {
    open spec fn obeys_eq_spec() -> bool {
        true
    }

    open spec fn eq_spec(&self, other: &OutputMap) -> bool {
        self@ == other@
    }
}

impl Clone for OutputMap {
    /// A map with the same entries.
    fn clone(&self) -> (res: OutputMap)
        ensures
            res@ == self@,
    {
        proof {
            use_type_invariant(self);
        }
        let n = self.entries.len();
        let mut entries: Vec<(String, Background)> = Vec::new();
        let mut i: usize = 0;
        while i < n
            invariant
                n == self.entries@.len(),
                i <= n,
                entries@.len() == i,
                forall|j: int|
                    0 <= j < i ==> (#[trigger] entries@[j]).0@ == self.entries@[j].0@
                        && entries@[j].1@ == self.entries@[j].1@,
            decreases n - i,
        {
            let k = self.entries[i].0.clone();
            let b = self.entries[i].1.duplicate();
            entries.push((k, b));
            i = i + 1;
        }
        proof {
            let e = entries@.map_values(|e: (String, Background)| (e.0@, e.1@));
            assert(e =~= self.entries_view());
        }
        OutputMap { entries }
    }
}

impl View for OutputMap {
    type V = Map<Seq<char>, Rule>;

    closed spec fn view(&self) -> Map<Seq<char>, Rule> {
        map_of(self.entries_view())
    }
}

} // verus!
