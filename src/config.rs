//! The persisted form of a registry: per category, each rule's name and
//! whether it is enabled; and its reconciliation with a catalog of rules.

use crate::category::Category;
use crate::rule::{same_text, share, Rule};
use crate::rules::Error as RegistryError;
use std::sync::Arc;
use crate::rules::{
    first_position, is_first_position, is_first_repeat, lemma_first_position_exists,
    lemma_first_position_unique, names, Rules,
};
use vstd::seq_lib::lemma_no_dup_in_concat;
use crate::toggleable_rule::ToggleableRule;
use vstd::prelude::*;

verus! {

/// The persisted settings of one rule.
#[derive(Debug, Clone, Copy, PartialEq, Eq, Structural)]
pub struct RuleConfig {
    pub enable: bool,
}

/// One rule's name with its settings.
#[derive(Debug, Clone, PartialEq, Eq)]
pub struct RuleEntry {
    pub name: String,
    pub config: RuleConfig,
}

/// A persisted entry as a name and an enabled flag.
pub open spec fn entry_view(e: RuleEntry) -> (Seq<char>, bool) {
    (e.name@, e.config.enable)
}

/// Persisted entries as names and enabled flags.
pub open spec fn entries_view(v: Seq<RuleEntry>) -> Seq<(Seq<char>, bool)> {
    v.map_values(|e: RuleEntry| entry_view(e))
}

/// The names of persisted entries, in order.
pub open spec fn keys(p: Seq<(Seq<char>, bool)>) -> Seq<Seq<char>> {
    p.map_values(|x: (Seq<char>, bool)| x.0)
}

/// Whether a rule belongs to category `c`.
pub open spec fn in_category<R: Rule>(c: Category) -> spec_fn(ToggleableRule<R>) -> bool {
    |t: ToggleableRule<R>| t.category_spec() == c
}

/// A rule as it is persisted: its name and whether it is enabled.
pub open spec fn persisted<R: Rule>(t: ToggleableRule<R>) -> (Seq<char>, bool) {
    (t.name_spec(), t.enabled_spec())
}

/// What a registry persists under category `c`: its rules of that
/// category, in registry order, each as its name and enabled flag.
pub open spec fn layout<R: Rule>(s: Seq<ToggleableRule<R>>, c: Category) -> Seq<(Seq<char>, bool)> {
    s.filter(in_category::<R>(c)).map_values(|t: ToggleableRule<R>| persisted(t))
}

/// `e` is the persisted form of a rule of `s` in category `c`.
pub open spec fn persisted_from<R: Rule>(s: Seq<ToggleableRule<R>>, c: Category, e: (Seq<char>, bool)) -> bool {
    exists|j: int| 0 <= j < s.len() && s[j].category_spec() == c && e == persisted(s[j])
}

/// Appending a rule appends its entry to the layout of its own category only.
proof fn lemma_layout_push<R: Rule>(s: Seq<ToggleableRule<R>>, x: ToggleableRule<R>, c: Category)
    ensures
        layout(s.push(x), c) == if x.category_spec() == c {
            layout(s, c).push(persisted(x))
        } else {
            layout(s, c)
        },
{
    s.lemma_filter_push(x, in_category::<R>(c));
    let q = s.filter(in_category::<R>(c));
    assert(q.push(x).map_values(|t: ToggleableRule<R>| persisted(t)) =~= q.map_values(
        |t: ToggleableRule<R>| persisted(t),
    ).push(persisted(x)));
}

/// The layout of a category holds exactly the rules of that category, and
/// no name twice when the registry holds none twice.
proof fn lemma_layout<R: Rule>(s: Seq<ToggleableRule<R>>, c: Category)
    requires
        names(s).no_duplicates(),
    ensures
        forall|k: int|
            0 <= k < layout(s, c).len() ==> persisted_from(s, c, #[trigger] layout(s, c)[k]),
        forall|j: int|
            0 <= j < s.len() && s[j].category_spec() == c ==> layout(s, c).contains(
                #[trigger] persisted(s[j]),
            ),
        keys(layout(s, c)).no_duplicates(),
    decreases s.len(),
{
    if s.len() == 0 {
        reveal(Seq::filter);
        assert(layout(s, c) =~= Seq::<(Seq<char>, bool)>::empty());
    } else {
        let s0 = s.drop_last();
        let x = s.last();
        assert(s =~= s0.push(x));
        assert(names(s0) =~= names(s).drop_last());
        assert(names(s0).no_duplicates());
        lemma_layout(s0, c);
        lemma_layout_push(s0, x, c);
        let l0 = layout(s0, c);
        let l = layout(s, c);
        if x.category_spec() == c {
            assert forall|k: int| 0 <= k < l.len() implies persisted_from(s, c, #[trigger] l[k]) by {
                if k < l0.len() {
                    assert(l[k] == l0[k]);
                    let j = choose|j: int|
                        0 <= j < s0.len() && s0[j].category_spec() == c && #[trigger] l0[k]
                            == persisted(s0[j]);
                    assert(s[j] == s0[j]);
                    assert(l[k] == l0[k]);
                } else {
                    assert(l[k] == persisted(s[s.len() - 1]));
                }
            }
            assert forall|j: int| 0 <= j < s.len() && s[j].category_spec() == c implies l.contains(
                #[trigger] persisted(s[j]),
            ) by {
                if j < s0.len() {
                    assert(s0[j] == s[j]);
                    assert(l0.contains(persisted(s0[j])));
                    let k = choose|k: int| 0 <= k < l0.len() && l0[k] == persisted(s0[j]);
                    assert(l[k] == persisted(s[j]));
                } else {
                    assert(l[l.len() - 1] == persisted(s[j]));
                }
            }
            assert(keys(l) =~= keys(l0).push(x.name_spec()));
            assert forall|a: int, b: int|
                0 <= a < keys(l).len() && 0 <= b < keys(l).len() && a != b implies keys(l)[a]
                != keys(l)[b] by {
                if a < l0.len() && b < l0.len() {
                    assert(keys(l)[a] == keys(l0)[a] && keys(l)[b] == keys(l0)[b]);
                } else {
                    let k = if a < l0.len() {
                        a
                    } else {
                        b
                    };
                    assert(l[k] == l0[k]);
                    assert(persisted_from(s0, c, l0[k]));
                    let j = choose|j: int|
                        0 <= j < s0.len() && s0[j].category_spec() == c && l0[k] == persisted(s0[j]);
                    assert(names(s)[j] == s[j].name_spec());
                    assert(names(s)[s.len() - 1] == x.name_spec());
                    assert(keys(l)[k] == names(s)[j]);
                }
            }
        } else {
            assert forall|k: int| 0 <= k < l.len() implies persisted_from(s, c, #[trigger] l[k]) by {
                assert(l[k] == l0[k]);
                let j = choose|j: int|
                    0 <= j < s0.len() && s0[j].category_spec() == c && #[trigger] l0[k]
                        == persisted(s0[j]);
                assert(s[j] == s0[j]);
            }
            assert forall|j: int| 0 <= j < s.len() && s[j].category_spec() == c implies l.contains(
                #[trigger] persisted(s[j]),
            ) by {
                assert(s0[j] == s[j]);
            }
        }
    }
}

/// The names of the rules of a catalog, in order.
pub open spec fn catalog_names<R: Rule>(c: Seq<Arc<R>>) -> Seq<Seq<char>> {
    c.map_values(|r: Arc<R>| r.name_spec())
}

/// Every persisted name is the name of a rule of the catalog.
pub open spec fn all_known(f: Seq<(Seq<char>, bool)>, cn: Seq<Seq<char>>) -> bool {
    forall|k: int| 0 <= k < f.len() ==> cn.contains(#[trigger] f[k].0)
}

/// `j` is the first persisted entry whose name no rule of the catalog has.
pub open spec fn is_first_missing(f: Seq<(Seq<char>, bool)>, cn: Seq<Seq<char>>, j: int) -> bool {
    &&& 0 <= j < f.len()
    &&& !cn.contains(f[j].0)
    &&& all_known(f.take(j), cn)
}

/// `s` joins the persisted entries `f` with `catalog`: entry by entry, the
/// first catalog rule of the entry's name, enabled as the entry says.
pub open spec fn resolves<R: Rule>(
    s: Seq<ToggleableRule<Arc<R>>>,
    f: Seq<(Seq<char>, bool)>,
    catalog: Seq<Arc<R>>,
) -> bool {
    &&& s.len() == f.len()
    &&& forall|i: int|
        0 <= i < f.len() ==> {
            &&& #[trigger] s[i].inner() == catalog[first_position(catalog_names(catalog), f[i].0)]
            &&& s[i].enabled_spec() == f[i].1
        }
}

/// Why a persisted configuration could not become a registry.
#[derive(Debug, Clone, PartialEq, Eq)]
pub enum Error {
    /// The configuration names a rule that the catalog does not hold.
    MissingRule(String),
    /// The configuration names a rule twice.
    DuplicateName(String),
}

/// Entries keyed first by category, then by rule name.
#[derive(Debug, PartialEq, Eq)]
pub struct InnerRules {
    yaml: Vec<RuleEntry>,
    heading: Vec<RuleEntry>,
    content: Vec<RuleEntry>,
    spacing: Vec<RuleEntry>,
    other: Vec<RuleEntry>,
}

impl InnerRules {
    /// No category holds a name twice, as in a map keyed by name.
    #[verifier::type_invariant]
    spec fn unique_names(&self) -> bool {
        self.wf()
    }
}

/// Sets the entry named `name` in `v`, or appends it when there is none.
fn insert_entry(v: &mut Vec<RuleEntry>, name: String, enable: bool)
    ensures
        !keys(entries_view(old(v)@)).contains(name@) ==> entries_view(final(v)@) == entries_view(
            old(v)@,
        ).push((name@, enable)),
        keys(entries_view(old(v)@)).contains(name@) ==> entries_view(final(v)@) == entries_view(
            old(v)@,
        ).update(first_position(keys(entries_view(old(v)@)), name@), (name@, enable)),
        keys(entries_view(old(v)@)).no_duplicates() ==> keys(entries_view(final(v)@)).no_duplicates(),
{
    let ghost ks = keys(entries_view(v@));
    let mut i: usize = 0;
    while i < v.len()
        invariant
            i <= v.len(),
            v@ == old(v)@,
            ks == keys(entries_view(v@)),
            !ks.take(i as int).contains(name@),
        decreases v.len() - i,
    {
        if same_text(v[i].name.as_str(), name.as_str()) {
            assert(is_first_position(ks, name@, i as int));
            proof {
                lemma_first_position_unique(ks, name@, i as int);
            }
            v.set(i, RuleEntry { name, config: RuleConfig { enable } });
            assert(entries_view(v@) =~= entries_view(old(v)@).update(i as int, (name@, enable)));
            assert(keys(entries_view(v@)) =~= ks);
            return;
        }
        assert(ks.take(i as int + 1) =~= ks.take(i as int).push(ks[i as int]));
        i += 1;
    }
    assert(ks.take(i as int) =~= ks);
    v.push(RuleEntry { name, config: RuleConfig { enable } });
    assert(entries_view(v@) =~= entries_view(old(v)@).push((name@, enable)));
    assert(keys(entries_view(v@)) =~= ks.push(name@));
    assert(ks.push(name@).no_duplicates() <== ks.no_duplicates()) by {
        if ks.no_duplicates() {
            let t = ks.push(name@);
            assert forall|a: int, b: int|
                0 <= a < t.len() && 0 <= b < t.len() && a != b implies t[a] != t[b] by {
                if a == ks.len() {
                    assert(ks[b] == t[b]);
                } else if b == ks.len() {
                    assert(ks[a] == t[a]);
                }
            }
        }
    }
}

/// Appends copies of the entries of `b` to `out`.
fn append_entries(out: &mut Vec<RuleEntry>, b: &Vec<RuleEntry>)
    ensures
        entries_view(final(out)@) == entries_view(old(out)@) + entries_view(b@),
{
    let mut i: usize = 0;
    while i < b.len()
        invariant
            i <= b.len(),
            entries_view(out@) == entries_view(old(out)@) + entries_view(b@).take(i as int),
        decreases b.len() - i,
    {
        let e = RuleEntry { name: b[i].name.clone(), config: b[i].config };
        let ghost before = out@;
        out.push(e);
        assert(entries_view(out@) =~= entries_view(before).push(entry_view(b@[i as int])));
        assert(entries_view(b@).take(i as int + 1) =~= entries_view(b@).take(i as int).push(
            entry_view(b@[i as int]),
        ));
        assert(entries_view(out@) =~= entries_view(old(out)@) + entries_view(b@).take(i as int + 1));
        i += 1;
    }
    assert(entries_view(b@).take(i as int) =~= entries_view(b@));
}

/// The position of the first rule of `catalog` named `name`, if any.
fn find_rule<R: Rule>(catalog: &Vec<Arc<R>>, name: &str) -> (r: Option<usize>)
    ensures
        r is None <==> !catalog_names(catalog@).contains(name@),
        r matches Some(i) ==> i == first_position(catalog_names(catalog@), name@)
            && is_first_position(catalog_names(catalog@), name@, i as int),
{
    let ghost cn = catalog_names(catalog@);
    let mut i: usize = 0;
    while i < catalog.len()
        invariant
            i <= catalog.len(),
            cn == catalog_names(catalog@),
            !cn.take(i as int).contains(name@),
        decreases catalog.len() - i,
    {
        if same_text(catalog[i].name(), name) {
            proof {
                lemma_first_position_unique(cn, name@, i as int);
            }
            return Some(i);
        }
        assert(cn.take(i as int + 1) =~= cn.take(i as int).push(cn[i as int]));
        i += 1;
    }
    assert(cn.take(i as int) =~= cn);
    None
}

/// Whether no two rules of a catalog share a name.
pub fn catalog_names_distinct<R: Rule>(catalog: &Vec<Arc<R>>) -> (r: bool)
    ensures
        r == catalog_names(catalog@).no_duplicates(),
{
    let ghost cn = catalog_names(catalog@);
    let mut i: usize = 0;
    while i < catalog.len()
        invariant
            i <= catalog.len(),
            cn == catalog_names(catalog@),
            cn.take(i as int).no_duplicates(),
        decreases catalog.len() - i,
    {
        let name = catalog[i].name();
        let mut k: usize = 0;
        while k < i
            invariant
                k <= i < catalog.len(),
                cn == catalog_names(catalog@),
                name@ == cn[i as int],
                cn.take(i as int).no_duplicates(),
                forall|m: int| 0 <= m < k ==> cn[m] != cn[i as int],
            decreases i - k,
        {
            if same_text(catalog[k].name(), name) {
                assert(cn[k as int] == catalog@[k as int].name_spec());
                assert(cn[k as int] == cn[i as int]);
                return false;
            }
            k += 1;
        }
        assert(cn.take(i as int + 1) =~= cn.take(i as int).push(cn[i as int]));
        assert(cn.take(i as int + 1).no_duplicates()) by {
            let t = cn.take(i as int + 1);
            assert forall|a: int, b: int|
                0 <= a < t.len() && 0 <= b < t.len() && a != b implies t[a] != t[b] by {
                if a < i && b < i {
                    assert(t[a] == cn.take(i as int)[a] && t[b] == cn.take(i as int)[b]);
                }
            }
        }
        i += 1;
    }
    assert(cn.take(i as int) =~= cn);
    true
}

/// Turns persisted entries back into a registry, with the rules of a
/// catalog that the running program holds.
#[derive(Debug, Clone, Copy)]
pub struct RulesSeed<'a, R> {
    available_rules: &'a Vec<Arc<R>>,
}

impl<'a, R: Rule> RulesSeed<'a, R> {
    /// The catalog of rules that names are looked up in.
    pub closed spec fn catalog(&self) -> Seq<Arc<R>> {
        self.available_rules@
    }

    /// Looks names up in `available_rules`.
    pub fn new(available_rules: &'a Vec<Arc<R>>) -> (r: Self)
        ensures
            r.catalog() == available_rules@,
    {
        RulesSeed { available_rules }
    }

    /// Joins the persisted entries, category by category, with the catalog.
    ///
    /// Each entry becomes the first catalog rule of its name, enabled as
    /// the entry says. A name the catalog lacks is an error that names it;
    /// the registry of the joined rules must hold no name twice.
    pub fn deserialize(&self, inner: &InnerRules) -> (r: Result<Rules<Arc<R>>, Error>)
        ensures
            !all_known(inner.flat(), catalog_names(self.catalog())) ==> (r matches Err(
                Error::MissingRule(n),
            ) && exists|j: int|
                is_first_missing(inner.flat(), catalog_names(self.catalog()), j) && n@
                    == inner.flat()[j].0),
            all_known(inner.flat(), catalog_names(self.catalog())) ==> {
                &&& r is Ok <==> keys(inner.flat()).no_duplicates()
                &&& r matches Ok(reg) ==> reg.wf() && resolves(reg@, inner.flat(), self.catalog())
                &&& r is Err ==> (r matches Err(Error::DuplicateName(n)) && exists|j: int|
                    is_first_repeat(keys(inner.flat()), j) && n@ == keys(inner.flat())[j])
            },
    {
        let flat = inner.flatten();
        let ghost f = inner.flat();
        let ghost cn = catalog_names(self.available_rules@);
        let mut v: Vec<ToggleableRule<Arc<R>>> = Vec::new();
        let mut i: usize = 0;
        while i < flat.len()
            invariant
                i <= flat.len(),
                entries_view(flat@) == f,
                f == inner.flat(),
                cn == catalog_names(self.available_rules@),
                all_known(f.take(i as int), cn),
                resolves(v@, f.take(i as int), self.available_rules@),
                names(v@) == keys(f.take(i as int)),
            decreases flat.len() - i,
        {
            assert(f[i as int] == entry_view(flat@[i as int]));
            match find_rule(self.available_rules, flat[i].name.as_str()) {
                None => {
                    assert(is_first_missing(f, cn, i as int));
                    return Err(Error::MissingRule(flat[i].name.clone()));
                },
                Some(k) => {
                    let t = ToggleableRule::new(share(&self.available_rules[k]), flat[i].config.enable);
                    let ghost before = v@;
                    v.push(t);
                    proof {
                        assert(v@ =~= before.push(t));
                        assert(t.name_spec() == cn[k as int]);
                        assert forall|m: int| 0 <= m < i + 1 implies {
                            &&& #[trigger] v@[m].inner() == self.available_rules@[first_position(
                                cn,
                                f.take(i as int + 1)[m].0,
                            )]
                            &&& v@[m].enabled_spec() == f.take(i as int + 1)[m].1
                        } by {
                            if m < i {
                                assert(v@[m] == before[m]);
                                assert(f.take(i as int)[m] == f.take(i as int + 1)[m]);
                                assert(before[m].inner() == self.available_rules@[first_position(
                                    cn,
                                    f.take(i as int)[m].0,
                                )]);
                            } else {
                                assert(f.take(i as int + 1)[m] == f[i as int]);
                                assert(v@[m] == t);
                            }
                        }
                        assert(f.take(i as int + 1) =~= f.take(i as int).push(f[i as int]));
                        assert(cn[k as int] == self.available_rules@[k as int].name_spec());
                        assert(names(v@) =~= names(before).push(t.name_spec()));
                        assert(keys(f.take(i as int + 1)) =~= keys(f.take(i as int)).push(
                            f[i as int].0,
                        ));
                        assert(names(v@) =~= keys(f.take(i as int + 1)));
                        assert forall|m: int| 0 <= m < i + 1 implies cn.contains(
                            #[trigger] f.take(i as int + 1)[m].0,
                        ) by {
                            if m < i {
                                assert(f.take(i as int)[m] == f.take(i as int + 1)[m]);
                            }
                        }
                    }
                },
            }
            i += 1;
        }
        assert(f.take(i as int) =~= f);
        match Rules::new(v) {
            Ok(reg) => Ok(reg),
            Err(RegistryError::DuplicateName(n)) => Err(Error::DuplicateName(n)),
        }
    }
}

impl InnerRules {
    /// The entries persisted under category `c`.
    pub closed spec fn block(&self, c: Category) -> Seq<(Seq<char>, bool)> {
        match c {
            Category::Yaml => entries_view(self.yaml@),
            Category::Heading => entries_view(self.heading@),
            Category::Content => entries_view(self.content@),
            Category::Spacing => entries_view(self.spacing@),
            Category::Other => entries_view(self.other@),
        }
    }

    /// No category holds a name twice, as in a map keyed by name.
    pub open spec fn wf(&self) -> bool {
        forall|c: Category| #[trigger] keys(self.block(c)).no_duplicates()
    }

    /// All entries, category by category in the order of categories.
    pub open spec fn flat(&self) -> Seq<(Seq<char>, bool)> {
        self.block(Category::Yaml) + self.block(Category::Heading) + self.block(Category::Content)
            + self.block(Category::Spacing) + self.block(Category::Other)
    }

    /// No entries.
    pub fn new() -> (r: Self)
        ensures
            forall|c: Category| #[trigger] r.block(c) == Seq::<(Seq<char>, bool)>::empty(),
            r.wf(),
    {
        let r = InnerRules {
            yaml: Vec::new(),
            heading: Vec::new(),
            content: Vec::new(),
            spacing: Vec::new(),
            other: Vec::new(),
        };
        assert forall|c: Category| #[trigger] r.block(c) == Seq::<(Seq<char>, bool)>::empty() by {
            assert(entries_view(Seq::<RuleEntry>::empty()) =~= Seq::<(Seq<char>, bool)>::empty());
        }
        assert forall|c: Category| #[trigger] keys(r.block(c)).no_duplicates() by {
            assert(keys(r.block(c)) =~= Seq::<Seq<char>>::empty());
        }
        r
    }

    /// Records that the rule `name` of `category` is enabled or not; an
    /// entry of the same name in that category is replaced.
    pub fn add_rule(&mut self, name: String, category: Category, enable: bool)
        ensures
            forall|c: Category| c != category ==> #[trigger] final(self).block(c) == old(self).block(c),
            !keys(old(self).block(category)).contains(name@) ==> final(self).block(category)
                == old(self).block(category).push((name@, enable)),
            keys(old(self).block(category)).contains(name@) ==> final(self).block(category)
                == old(self).block(category).update(
                first_position(keys(old(self).block(category)), name@),
                (name@, enable),
            ),
            final(self).wf(),
    {
        proof {
            use_type_invariant(&*self);
        }
        let ghost before = *self;
        proof {
            assert(keys(before.block(Category::Yaml)).no_duplicates());
            assert(keys(before.block(Category::Heading)).no_duplicates());
            assert(keys(before.block(Category::Content)).no_duplicates());
            assert(keys(before.block(Category::Spacing)).no_duplicates());
            assert(keys(before.block(Category::Other)).no_duplicates());
        }
        let mut taken = InnerRules::new();
        std::mem::swap(self, &mut taken);
        let mut yaml = taken.yaml;
        let mut heading = taken.heading;
        let mut content = taken.content;
        let mut spacing = taken.spacing;
        let mut other = taken.other;
        match category {
            Category::Yaml => insert_entry(&mut yaml, name, enable),
            Category::Heading => insert_entry(&mut heading, name, enable),
            Category::Content => insert_entry(&mut content, name, enable),
            Category::Spacing => insert_entry(&mut spacing, name, enable),
            Category::Other => insert_entry(&mut other, name, enable),
        }
        let next = InnerRules { yaml, heading, content, spacing, other };
        *self = next;
    }

    /// The persisted form of a registry: each rule, under its category, as
    /// its name and whether it is enabled, in registry order.
    pub fn from_rules<R: Rule>(rules: &Rules<R>) -> (r: InnerRules)
        ensures
            forall|c: Category| #[trigger] r.block(c) == layout(rules@, c),
            r.wf(),
    {
        let v = rules.rules();
        let mut inner = InnerRules::new();
        let mut i: usize = 0;
        while i < v.len()
            invariant
                i <= v.len(),
                v@ == rules@,
                names(v@).no_duplicates(),
                forall|c: Category| #[trigger] inner.block(c) == layout(v@.take(i as int), c),
            decreases v.len() - i,
        {
            let t = &v[i];
            let ghost s = v@.take(i as int);
            proof {
                assert(names(s) =~= names(v@).take(i as int));
                lemma_layout(s, t.category_spec());
                if keys(layout(s, t.category_spec())).contains(t.name_spec()) {
                    let k = choose|k: int|
                        0 <= k < keys(layout(s, t.category_spec())).len() && keys(
                            layout(s, t.category_spec()),
                        )[k] == t.name_spec();
                    assert(persisted_from(s, t.category_spec(), layout(s, t.category_spec())[k]));
                    let j = choose|j: int|
                        0 <= j < s.len() && s[j].category_spec() == t.category_spec()
                            && layout(s, t.category_spec())[k] == persisted(s[j]);
                    assert(names(v@)[j] == names(v@)[i as int]);
                }
            }
            inner.add_rule(t.name().to_string(), t.category(), t.is_enabled());
            proof {
                assert(v@.take(i as int + 1) =~= s.push(*t));
                assert forall|c: Category| #[trigger]
                    inner.block(c) == layout(v@.take(i as int + 1), c) by {
                    lemma_layout_push(s, *t, c);
                }
            }
            i += 1;
        }
        assert(v@.take(i as int) =~= v@);
        assert forall|c: Category| #[trigger] keys(inner.block(c)).no_duplicates() by {
            lemma_layout(rules@, c);
        }
        inner
    }

    /// All entries, category by category.
    pub fn flatten(&self) -> (r: Vec<RuleEntry>)
        ensures
            entries_view(r@) == self.flat(),
    {
        let mut r: Vec<RuleEntry> = Vec::new();
        append_entries(&mut r, &self.yaml);
        append_entries(&mut r, &self.heading);
        append_entries(&mut r, &self.content);
        append_entries(&mut r, &self.spacing);
        append_entries(&mut r, &self.other);
        assert(Seq::<(Seq<char>, bool)>::empty() + self.block(Category::Yaml) =~= self.block(Category::Yaml));
        r
    }

    /// The entries persisted under `category`.
    pub fn entries(&self, category: Category) -> (r: &Vec<RuleEntry>)
        ensures
            entries_view(r@) == self.block(category),
            keys(entries_view(r@)).no_duplicates(),
    {
        proof {
            use_type_invariant(self);
            assert(keys(self.block(category)).no_duplicates());
        }
        match category {
            Category::Yaml => &self.yaml,
            Category::Heading => &self.heading,
            Category::Content => &self.content,
            Category::Spacing => &self.spacing,
            Category::Other => &self.other,
        }
    }
}

/// Each rule's enabled flag, by name.
pub open spec fn config_map<R: Rule>(s: Seq<ToggleableRule<R>>) -> Map<Seq<char>, bool> {
    Map::new(
        |n: Seq<char>| names(s).contains(n),
        |n: Seq<char>| s[first_position(names(s), n)].enabled_spec(),
    )
}

/// In a sequence without duplicates, an element's position is its first.
proof fn lemma_only_position(s: Seq<Seq<char>>, x: Seq<char>, j: int)
    requires
        s.no_duplicates(),
        0 <= j < s.len(),
        s[j] == x,
    ensures
        first_position(s, x) == j,
{
    if s.take(j).contains(x) {
        let k = choose|k: int| 0 <= k < j && s.take(j)[k] == x;
        assert(s[k] == s[j]);
    }
    lemma_first_position_unique(s, x, j);
}

/// Names persisted under different categories come from different rules,
/// so they differ.
proof fn lemma_cross<R: Rule>(s: Seq<ToggleableRule<R>>, c1: Category, c2: Category, a: int, b: int)
    requires
        names(s).no_duplicates(),
        c1 != c2,
        0 <= a < layout(s, c1).len(),
        0 <= b < layout(s, c2).len(),
    ensures
        keys(layout(s, c1))[a] != keys(layout(s, c2))[b],
{
    lemma_layout(s, c1);
    lemma_layout(s, c2);
    assert(persisted_from(s, c1, layout(s, c1)[a]));
    assert(persisted_from(s, c2, layout(s, c2)[b]));
    let j1 = choose|j: int| 0 <= j < s.len() && s[j].category_spec() == c1 && layout(s, c1)[a] == persisted(s[j]);
    let j2 = choose|j: int| 0 <= j < s.len() && s[j].category_spec() == c2 && layout(s, c2)[b] == persisted(s[j]);
    assert(names(s)[j1] == s[j1].name_spec() && names(s)[j2] == s[j2].name_spec());
}

/// The names of a concatenation are the concatenated names.
proof fn lemma_keys_add(a: Seq<(Seq<char>, bool)>, b: Seq<(Seq<char>, bool)>)
    ensures
        keys(a + b) == keys(a) + keys(b),
{
    assert(keys(a + b) =~= keys(a) + keys(b));
}

/// Every persisted entry of a registry is some rule's name and flag.
proof fn lemma_flat_from<R: Rule>(inner: InnerRules, s: Seq<ToggleableRule<R>>, k: int)
    requires
        names(s).no_duplicates(),
        forall|c: Category| #[trigger] inner.block(c) == layout(s, c),
        0 <= k < inner.flat().len(),
    ensures
        exists|j: int| 0 <= j < s.len() && inner.flat()[k] == persisted(s[j]),
{
    let b0 = inner.block(Category::Yaml);
    let b1 = inner.block(Category::Heading);
    let b2 = inner.block(Category::Content);
    let b3 = inner.block(Category::Spacing);
    let b4 = inner.block(Category::Other);
    let f = inner.flat();
    let (c, a) = if k < b0.len() {
        (Category::Yaml, k)
    } else if k < b0.len() + b1.len() {
        (Category::Heading, k - b0.len())
    } else if k < b0.len() + b1.len() + b2.len() {
        (Category::Content, k - b0.len() - b1.len())
    } else if k < b0.len() + b1.len() + b2.len() + b3.len() {
        (Category::Spacing, k - b0.len() - b1.len() - b2.len())
    } else {
        (Category::Other, k - b0.len() - b1.len() - b2.len() - b3.len())
    };
    assert(f[k] == inner.block(c)[a]);
    lemma_layout(s, c);
    assert(persisted_from(s, c, layout(s, c)[a]));
}

/// Every rule of a registry is persisted.
proof fn lemma_flat_has<R: Rule>(inner: InnerRules, s: Seq<ToggleableRule<R>>, j: int)
    requires
        names(s).no_duplicates(),
        forall|c: Category| #[trigger] inner.block(c) == layout(s, c),
        0 <= j < s.len(),
    ensures
        inner.flat().contains(persisted(s[j])),
{
    let c = s[j].category_spec();
    lemma_layout(s, c);
    let b = inner.block(c);
    assert(b.contains(persisted(s[j])));
    let a = choose|a: int| 0 <= a < b.len() && b[a] == persisted(s[j]);
    let b0 = inner.block(Category::Yaml);
    let b1 = inner.block(Category::Heading);
    let b2 = inner.block(Category::Content);
    let b3 = inner.block(Category::Spacing);
    let f = inner.flat();
    let k = match c {
        Category::Yaml => a,
        Category::Heading => b0.len() + a,
        Category::Content => b0.len() + b1.len() + a,
        Category::Spacing => b0.len() + b1.len() + b2.len() + a,
        Category::Other => b0.len() + b1.len() + b2.len() + b3.len() + a,
    };
    assert(f[k] == b[a]);
}

/// Persisting a registry names no rule twice.
proof fn lemma_flat_no_duplicates<R: Rule>(inner: InnerRules, s: Seq<ToggleableRule<R>>)
    requires
        names(s).no_duplicates(),
        forall|c: Category| #[trigger] inner.block(c) == layout(s, c),
    ensures
        keys(inner.flat()).no_duplicates(),
{
    let b0 = inner.block(Category::Yaml);
    let b1 = inner.block(Category::Heading);
    let b2 = inner.block(Category::Content);
    let b3 = inner.block(Category::Spacing);
    let b4 = inner.block(Category::Other);
    lemma_layout(s, Category::Yaml);
    lemma_layout(s, Category::Heading);
    lemma_layout(s, Category::Content);
    lemma_layout(s, Category::Spacing);
    lemma_layout(s, Category::Other);
    lemma_keys_add(b0, b1);
    lemma_keys_add(b0 + b1, b2);
    lemma_keys_add(b0 + b1 + b2, b3);
    lemma_keys_add(b0 + b1 + b2 + b3, b4);
    let k0 = keys(b0);
    let k1 = keys(b1);
    let k2 = keys(b2);
    let k3 = keys(b3);
    let k4 = keys(b4);
    assert forall|i: int, j: int| 0 <= i < k0.len() && 0 <= j < k1.len() implies k0[i] != k1[j] by {
        lemma_cross(s, Category::Yaml, Category::Heading, i, j);
    }
    lemma_no_dup_in_concat(k0, k1);
    let x1 = k0 + k1;
    assert forall|i: int, j: int| 0 <= i < x1.len() && 0 <= j < k2.len() implies x1[i] != k2[j] by {
        if i < k0.len() {
            lemma_cross(s, Category::Yaml, Category::Content, i, j);
        } else {
            lemma_cross(s, Category::Heading, Category::Content, i - k0.len(), j);
        }
    }
    lemma_no_dup_in_concat(x1, k2);
    let x2 = x1 + k2;
    assert forall|i: int, j: int| 0 <= i < x2.len() && 0 <= j < k3.len() implies x2[i] != k3[j] by {
        if i < k0.len() {
            lemma_cross(s, Category::Yaml, Category::Spacing, i, j);
        } else if i < k0.len() + k1.len() {
            lemma_cross(s, Category::Heading, Category::Spacing, i - k0.len(), j);
        } else {
            lemma_cross(s, Category::Content, Category::Spacing, i - k0.len() - k1.len(), j);
        }
    }
    lemma_no_dup_in_concat(x2, k3);
    let x3 = x2 + k3;
    assert forall|i: int, j: int| 0 <= i < x3.len() && 0 <= j < k4.len() implies x3[i] != k4[j] by {
        if i < k0.len() {
            lemma_cross(s, Category::Yaml, Category::Other, i, j);
        } else if i < k0.len() + k1.len() {
            lemma_cross(s, Category::Heading, Category::Other, i - k0.len(), j);
        } else if i < k0.len() + k1.len() + k2.len() {
            lemma_cross(s, Category::Content, Category::Other, i - k0.len() - k1.len(), j);
        } else {
            lemma_cross(
                s,
                Category::Spacing,
                Category::Other,
                i - k0.len() - k1.len() - k2.len(),
                j,
            );
        }
    }
    lemma_no_dup_in_concat(x3, k4);
}

/// Round trip: persisting a registry whose rules all come from a catalog
/// and joining the result with that catalog gives back the same name to
/// enabled-flag mapping. No persisted name is missing from the catalog,
/// none occurs twice (so the join succeeds), and every registry that the
/// join yields maps each name to the flag it had.
pub proof fn lemma_round_trip<R: Rule>(rules: Rules<Arc<R>>, catalog: Seq<Arc<R>>, inner: InnerRules)
    requires
        rules.wf(),
        forall|i: int|
            0 <= i < rules@.len() ==> catalog_names(catalog).contains(#[trigger] rules@[i].name_spec()),
        forall|c: Category| #[trigger] inner.block(c) == layout(rules@, c),
    ensures
        all_known(inner.flat(), catalog_names(catalog)),
        keys(inner.flat()).no_duplicates(),
        forall|back: Seq<ToggleableRule<Arc<R>>>|
            resolves(back, inner.flat(), catalog) ==> #[trigger] config_map(back) == config_map(
                rules@,
            ),
{
    assert forall|back: Seq<ToggleableRule<Arc<R>>>|
        resolves(back, inner.flat(), catalog) implies #[trigger] config_map(back) == config_map(
        rules@,
    ) by {
        lemma_round_trip_back(rules, catalog, inner, back);
    }
    lemma_round_trip_back_known(rules, catalog, inner);
}

/// The names persisted from a registry built from a catalog are all known
/// to it, and none repeats.
proof fn lemma_round_trip_back_known<R: Rule>(rules: Rules<Arc<R>>, catalog: Seq<Arc<R>>, inner: InnerRules)
    requires
        rules.wf(),
        forall|i: int|
            0 <= i < rules@.len() ==> catalog_names(catalog).contains(#[trigger] rules@[i].name_spec()),
        forall|c: Category| #[trigger] inner.block(c) == layout(rules@, c),
    ensures
        all_known(inner.flat(), catalog_names(catalog)),
        keys(inner.flat()).no_duplicates(),
{
    let s = rules@;
    let f = inner.flat();
    let cn = catalog_names(catalog);
    assert forall|k: int| 0 <= k < f.len() implies cn.contains(#[trigger] f[k].0) by {
        lemma_flat_from(inner, s, k);
        let j = choose|j: int| 0 <= j < s.len() && f[k] == persisted(s[j]);
        assert(cn.contains(s[j].name_spec()));
    }
    lemma_flat_no_duplicates(inner, s);
}

/// Every registry that the join of a registry's persisted form yields maps
/// each name to the flag it had.
proof fn lemma_round_trip_back<R: Rule>(
    rules: Rules<Arc<R>>,
    catalog: Seq<Arc<R>>,
    inner: InnerRules,
    back: Seq<ToggleableRule<Arc<R>>>,
)
    requires
        rules.wf(),
        forall|i: int|
            0 <= i < rules@.len() ==> catalog_names(catalog).contains(#[trigger] rules@[i].name_spec()),
        forall|c: Category| #[trigger] inner.block(c) == layout(rules@, c),
        resolves(back, inner.flat(), catalog),
    ensures
        config_map(back) == config_map(rules@),
{
    lemma_round_trip_back_known(rules, catalog, inner);
    let s = rules@;
    let f = inner.flat();
    let cn = catalog_names(catalog);
    assert(names(back) =~= keys(f)) by {
        assert forall|i: int| 0 <= i < f.len() implies names(back)[i] == keys(f)[i] by {
            assert(cn.contains(f[i].0));
            lemma_first_position_exists(cn, f[i].0);
            assert(back[i].inner() == catalog[first_position(cn, f[i].0)]);
        }
    }
    assert forall|n: Seq<char>| names(back).contains(n) <==> names(s).contains(n) by {
        if names(back).contains(n) {
            let k = choose|k: int| 0 <= k < names(back).len() && names(back)[k] == n;
            lemma_flat_from(inner, s, k);
            let j = choose|j: int| 0 <= j < s.len() && f[k] == persisted(s[j]);
            assert(names(s)[j] == n);
        }
        if names(s).contains(n) {
            let j = choose|j: int| 0 <= j < names(s).len() && names(s)[j] == n;
            lemma_flat_has(inner, s, j);
            let k = choose|k: int| 0 <= k < f.len() && f[k] == persisted(s[j]);
            assert(names(back)[k] == n);
        }
    }
    assert forall|n: Seq<char>| #[trigger] names(back).contains(n) implies back[first_position(
        names(back),
        n,
    )].enabled_spec() == s[first_position(names(s), n)].enabled_spec() by {
        let k = choose|k: int| 0 <= k < names(back).len() && names(back)[k] == n;
        lemma_only_position(names(back), n, k);
        lemma_flat_from(inner, s, k);
        let j = choose|j: int| 0 <= j < s.len() && f[k] == persisted(s[j]);
        assert(names(s)[j] == n);
        lemma_only_position(names(s), n, j);
    }
    assert(config_map(back) =~= config_map(s));
}

} // verus!
