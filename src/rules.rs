//! The registry: an ordered set of toggleable rules with distinct names.

use crate::rule::{same_text, Rule};
use crate::toggleable_rule::ToggleableRule;
use vstd::prelude::*;

verus! {

/// Why a registry could not be built.
#[derive(Debug, Clone, PartialEq, Eq)]
pub enum Error {
    /// Two entries share this name.
    DuplicateName(String),
}

/// The names of a sequence of rules, in order.
pub open spec fn names<R: Rule>(s: Seq<ToggleableRule<R>>) -> Seq<Seq<char>> {
    s.map_values(|t: ToggleableRule<R>| t.name_spec())
}

/// `i` is the first position of `x` in `s`.
pub open spec fn is_first_position(s: Seq<Seq<char>>, x: Seq<char>, i: int) -> bool {
    &&& 0 <= i < s.len()
    &&& s[i] == x
    &&& !s.take(i).contains(x)
}

/// The first position of `x` in `s`, where `s` contains it.
pub open spec fn first_position(s: Seq<Seq<char>>, x: Seq<char>) -> int {
    choose|i: int| is_first_position(s, x, i)
}

/// An element that occurs has a first position.
pub proof fn lemma_first_position_exists(s: Seq<Seq<char>>, x: Seq<char>)
    requires
        s.contains(x),
    ensures
        is_first_position(s, x, first_position(s, x)),
{
    let i = choose|i: int| 0 <= i < s.len() && s[i] == x;
    lemma_earliest(s, x, i);
}

/// Below any position of `x` lies a first position of `x`.
proof fn lemma_earliest(s: Seq<Seq<char>>, x: Seq<char>, i: int)
    requires
        0 <= i < s.len(),
        s[i] == x,
    ensures
        is_first_position(s, x, first_position(s, x)),
    decreases i,
{
    if s.take(i).contains(x) {
        let k = choose|k: int| 0 <= k < i && s.take(i)[k] == x;
        lemma_earliest(s, x, k);
    } else {
        assert(is_first_position(s, x, i));
    }
}

/// `j` is the first position whose name already occurs before it.
pub open spec fn is_first_repeat(s: Seq<Seq<char>>, j: int) -> bool {
    &&& 0 <= j < s.len()
    &&& s.take(j).no_duplicates()
    &&& s.take(j).contains(s[j])
}

/// The first position of an element is unique.
pub proof fn lemma_first_position_unique(s: Seq<Seq<char>>, x: Seq<char>, i: int)
    requires
        is_first_position(s, x, i),
    ensures
        first_position(s, x) == i,
{
    let k = first_position(s, x);
    assert(is_first_position(s, x, k));
    if k < i {
        assert(s.take(i)[k] == x);
    } else if i < k {
        assert(s.take(k)[i] == x);
    }
}

/// A prefix without duplicates grows by an element it does not contain.
proof fn lemma_no_duplicates_extend(s: Seq<Seq<char>>, i: int)
    requires
        0 <= i < s.len(),
        s.take(i).no_duplicates(),
        !s.take(i).contains(s[i]),
    ensures
        s.take(i + 1).no_duplicates(),
{
    assert(s.take(i + 1) =~= s.take(i).push(s[i]));
    let t = s.take(i + 1);
    assert forall|a: int, b: int| 0 <= a < t.len() && 0 <= b < t.len() && a != b implies t[a]
        != t[b] by {
        if a < i && b < i {
            assert(t[a] == s.take(i)[a] && t[b] == s.take(i)[b]);
        } else if a == i {
            assert(t[b] == s.take(i)[b]);
        } else {
            assert(t[a] == s.take(i)[a]);
        }
    }
}

/// Rules in a fixed order, no two of them with the same name.
#[derive(Debug, PartialEq, Eq)]
pub struct Rules<R: Rule> {
    rules: Vec<ToggleableRule<R>>,
}

impl<R: Rule> Rules<R> {
    /// No two rules share a name, from construction on.
    #[verifier::type_invariant]
    spec fn unique_names(&self) -> bool {
        names(self.rules@).no_duplicates()
    }
}

impl<R: Rule> View for Rules<R> {
    type V = Seq<ToggleableRule<R>>;

    closed spec fn view(&self) -> Seq<ToggleableRule<R>> {
        self.rules@
    }
}

/// The position of the first rule of `rules` named `name`, if any.
fn position<R: Rule>(rules: &Vec<ToggleableRule<R>>, name: &str) -> (r: Option<usize>)
    ensures
        r is None <==> !names(rules@).contains(name@),
        r matches Some(i) ==> is_first_position(names(rules@), name@, i as int) && i
            == first_position(names(rules@), name@),
{
    let ghost ns = names(rules@);
    let mut i: usize = 0;
    while i < rules.len()
        invariant
            i <= rules.len(),
            ns == names(rules@),
            !ns.take(i as int).contains(name@),
        decreases rules.len() - i,
    {
        if same_text(rules[i].name(), name) {
            proof {
                assert(ns[i as int] == name@);
                lemma_first_position_unique(ns, name@, i as int);
            }
            return Some(i);
        }
        assert(ns.take(i as int + 1) =~= ns.take(i as int).push(ns[i as int]));
        i += 1;
    }
    assert(ns.take(i as int) =~= ns);
    None
}

impl<R: Rule> Rules<R> {
    /// No two rules share a name.
    pub open spec fn wf(&self) -> bool {
        names(self@).no_duplicates()
    }

    /// Finds the first rule whose name repeats an earlier one.
    fn check_unique_name(rules: &Vec<ToggleableRule<R>>) -> (r: Result<(), Error>)
        ensures
            r is Ok <==> names(rules@).no_duplicates(),
            r matches Err(Error::DuplicateName(n)) ==> exists|j: int|
                is_first_repeat(names(rules@), j) && n@ == names(rules@)[j],
    {
        let ghost ns = names(rules@);
        let mut i: usize = 0;
        while i < rules.len()
            invariant
                i <= rules.len(),
                ns == names(rules@),
                ns.take(i as int).no_duplicates(),
            decreases rules.len() - i,
        {
            let name = rules[i].name();
            let mut k: usize = 0;
            while k < i
                invariant
                    k <= i < rules.len(),
                    ns == names(rules@),
                    name@ == ns[i as int],
                    ns.take(i as int).no_duplicates(),
                    forall|m: int| 0 <= m < k ==> ns[m] != ns[i as int],
                decreases i - k,
            {
                if same_text(rules[k].name(), name) {
                    assert(ns[k as int] == rules@[k as int].name_spec());
                    assert(ns.take(i as int)[k as int] == ns[i as int]);
                    assert(ns.take(i as int).contains(ns[i as int]));
                    assert(ns.len() == rules@.len());
                    assert(is_first_repeat(ns, i as int));
                    return Err(Error::DuplicateName(name.to_string()));
                }
                k += 1;
            }
            assert(!ns.take(i as int).contains(ns[i as int])) by {
                if ns.take(i as int).contains(ns[i as int]) {
                    let m = choose|m: int| 0 <= m < i && ns.take(i as int)[m] == ns[i as int];
                    assert(ns[m] == ns[i as int]);
                }
            }
            proof {
                lemma_no_duplicates_extend(ns, i as int);
            }
            i += 1;
        }
        assert(ns.take(i as int) =~= ns);
        Ok(())
    }

    /// Builds a registry of `rules` in the given order, or fails with the
    /// first name that repeats an earlier one.
    pub fn new(rules: Vec<ToggleableRule<R>>) -> (r: Result<Self, Error>)
        ensures
            r is Ok <==> names(rules@).no_duplicates(),
            r matches Ok(reg) ==> reg@ == rules@ && reg.wf(),
            r matches Err(Error::DuplicateName(n)) ==> exists|j: int|
                is_first_repeat(names(rules@), j) && n@ == names(rules@)[j],
    {
        match Self::check_unique_name(&rules) {
            Ok(()) => Ok(Rules { rules }),
            Err(e) => Err(e),
        }
    }

    /// The number of rules.
    pub fn len(&self) -> (r: usize)
        ensures
            r == self@.len(),
    {
        self.rules.len()
    }

    /// Whether the registry holds no rule.
    pub fn is_empty(&self) -> (r: bool)
        ensures
            r == (self@.len() == 0),
    {
        self.rules.len() == 0
    }

    /// The rules, in order; no two share a name.
    pub fn rules(&self) -> (r: &Vec<ToggleableRule<R>>)
        ensures
            r@ == self@,
            self.wf(),
    {
        proof {
            use_type_invariant(self);
        }
        &self.rules
    }

    /// The rules, in order, handed over.
    pub fn into_rules(self) -> (r: Vec<ToggleableRule<R>>)
        ensures
            r@ == self@,
    {
        self.rules
    }

    /// The rule named `name`, if there is one.
    pub fn get_by_name(&self, name: &str) -> (r: Option<&ToggleableRule<R>>)
        ensures
            r is None <==> !names(self@).contains(name@),
            r matches Some(t) ==> *t == self@[first_position(names(self@), name@)]
                && is_first_position(names(self@), name@, first_position(names(self@), name@)),
    {
        match position(&self.rules, name) {
            None => None,
            Some(i) => Some(&self.rules[i]),
        }
    }

    /// The rule named `name`, which the caller knows to be present.
    pub fn by_name(&self, name: &str) -> (r: &ToggleableRule<R>)
        requires
            names(self@).contains(name@),
        ensures
            *r == self@[first_position(names(self@), name@)],
            r.name_spec() == name@,
    {
        let i = position(&self.rules, name).unwrap();
        &self.rules[i]
    }

    /// Switches the rule named `name` on or off; says whether there is one.
    /// Only that rule's flag changes.
    pub fn set_enabled_by_name(&mut self, name: &str, enabled: bool) -> (found: bool)
        ensures
            found == names(old(self)@).contains(name@),
            !found ==> final(self)@ == old(self)@,
            final(self)@.len() == old(self)@.len(),
            forall|k: int|
                0 <= k < old(self)@.len() ==> #[trigger] final(self)@[k].inner() == old(self)@[k].inner(),
            forall|k: int|
                0 <= k < old(self)@.len() && k != first_position(names(old(self)@), name@)
                    ==> #[trigger] final(self)@[k] == old(self)@[k],
            found ==> is_first_position(
                names(old(self)@),
                name@,
                first_position(names(old(self)@), name@),
            ),
            found ==> final(self)@[first_position(names(old(self)@), name@)].enabled_spec()
                == enabled,
    {
        proof {
            use_type_invariant(&*self);
        }
        match position(&self.rules, name) {
            None => false,
            Some(i) => {
                let mut taken = Rules { rules: Vec::new() };
                std::mem::swap(self, &mut taken);
                let mut v = taken.rules;
                let ghost before = v@;
                let mut t = v.remove(i);
                if enabled {
                    t.enable();
                } else {
                    t.disable();
                }
                v.insert(i, t);
                proof {
                    assert(v@ =~= before.update(i as int, t));
                    assert(names(v@) =~= names(before));
                }
                *self = Rules { rules: v };
                true
            },
        }
    }
}

} // verus!
