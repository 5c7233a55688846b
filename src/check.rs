//! The check engine: runs every rule on every note, keeps going past a
//! rule that fails, and gathers what was found.

use crate::rule::{Content, Note, Rule};
use crate::rules::Rules;
use crate::toggleable_rule::ToggleableRule;
use crate::violation::Violation;
use vstd::arithmetic::div_mod::lemma_fundamental_div_mod_converse;
use vstd::prelude::*;

verus! {

/// The notes of the content's vault, in order.
pub uninterp spec fn notes_in(c: Content) -> Seq<Note>;

/// Relies on the parser's `Vault::notes`: the notes of the content's
/// vault.
#[verifier::external_body]
fn notes_of(content: &Content) -> (r: &Vec<Note>)
    ensures
        r@ == notes_in(*content),
{
    content.vault.notes()
}

/// What one rule gave for one note.
#[derive(Debug)]
pub struct Outcome<E> {
    /// The name of the rule that ran.
    pub rule: String,
    /// The violations it found, or how it failed.
    pub result: Result<Vec<Violation>, E>,
}

/// A rule that failed during a check pass, and its error.
#[derive(Debug)]
pub struct RuleFailure<E> {
    pub rule: String,
    pub error: E,
}

/// What a check pass gathered: the violations found by the rules that
/// succeeded, and the failures of the others.
#[derive(Debug)]
pub struct Report<E> {
    pub violations: Vec<Violation>,
    pub failures: Vec<RuleFailure<E>>,
}

/// The concatenation of `f` over the elements of `s`, in order.
pub open spec fn gather<A, U>(s: Seq<A>, f: spec_fn(A) -> Seq<U>) -> Seq<U>
    decreases s.len(),
{
    if s.len() == 0 {
        Seq::empty()
    } else {
        gather(s.drop_last(), f) + f(s.last())
    }
}

/// The violations of an outcome: all of them when the rule succeeded, none when it failed.
pub open spec fn found<E>(o: Outcome<E>) -> Seq<Violation> {
    match o.result {
        Ok(v) => v@,
        Err(_) => Seq::empty(),
    }
}

/// The failure of an outcome, as the rule's name and its error, if it failed.
pub open spec fn failed<E>(o: Outcome<E>) -> Seq<(Seq<char>, E)> {
    match o.result {
        Ok(_) => Seq::empty(),
        Err(e) => seq![(o.rule@, e)],
    }
}

/// A failure as the rule's name and its error.
pub open spec fn failure_view<E>(f: RuleFailure<E>) -> (Seq<char>, E) {
    (f.rule@, f.error)
}

/// The report of `outcomes`: every violation of a successful outcome and
/// every failure, each in the order of the outcomes.
pub open spec fn reports<E>(r: Report<E>, outcomes: Seq<Outcome<E>>) -> bool {
    &&& r.violations@ == gather(outcomes, |o: Outcome<E>| found(o))
    &&& r.failures@.map_values(|f: RuleFailure<E>| failure_view(f)) == gather(
        outcomes,
        |o: Outcome<E>| failed(o),
    )
}

/// `o` is what the rule `t` gave when run on `note` of `content`: it
/// carries that rule's name; a disabled rule found nothing and did not
/// fail; an enabled rule's result is one that its own check can return
/// for that content and note.
pub open spec fn outcome_of<E, R: Rule<Error = E>>(
    o: Outcome<E>,
    t: ToggleableRule<R>,
    content: Content,
    note: Note,
) -> bool {
    &&& o.rule@ == t.name_spec()
    &&& !t.enabled_spec() ==> (o.result matches Ok(v) && v@.len() == 0)
    &&& t.enabled_spec() ==> call_ensures(R::check, (&t.inner(), &content, &note), o.result)
}

/// Runs one rule on one note. A failure is kept as the outcome instead of
/// ending the pass; a disabled rule finds nothing and is not run.
pub fn check_unit<R: Rule>(rule: &ToggleableRule<R>, content: &Content, note: &Note) -> (o: Outcome<
    R::Error,
>)
    ensures
        outcome_of(o, *rule, *content, *note),
{
    let name = rule.name().to_string();
    Outcome { rule: name, result: rule.check(content, note) }
}

/// Runs every rule of the registry on one note, in registry order.
pub fn check_note<R: Rule>(rules: &Rules<R>, content: &Content, note: &Note) -> (r: Vec<
    Outcome<R::Error>,
>)
    ensures
        r@.len() == rules@.len(),
        forall|i: int| 0 <= i < rules@.len() ==> outcome_of(#[trigger] r@[i], rules@[i], *content, *note),
{
    let list = rules.rules();
    let mut r: Vec<Outcome<R::Error>> = Vec::new();
    let mut i: usize = 0;
    while i < list.len()
        invariant
            i <= list.len(),
            list@ == rules@,
            r@.len() == i,
            forall|j: int| 0 <= j < i ==> outcome_of(#[trigger] r@[j], rules@[j], *content, *note),
        decreases list.len() - i,
    {
        let o = check_unit(&list[i], content, note);
        let ghost before = r@;
        r.push(o);
        assert forall|j: int| 0 <= j < i + 1 implies outcome_of(#[trigger] r@[j], rules@[j], *content, *note) by {
            if j < i {
                assert(r@[j] == before[j]);
            }
        }
        i += 1;
    }
    r
}

/// Gathers outcomes into a report: the violations of the rules that
/// succeeded, and the failure of each rule that did not, in order.
pub fn aggregate<E>(outcomes: Vec<Outcome<E>>) -> (r: Report<E>)
    ensures
        reports(r, outcomes@),
{
    let ghost orig = outcomes@;
    let ghost n: int = orig.len() as int;
    let mut outcomes = outcomes;
    let mut rev: Vec<Outcome<E>> = Vec::new();
    while outcomes.len() > 0
        invariant
            n == orig.len(),
            outcomes.len() + rev.len() == n,
            outcomes@ == orig.take(outcomes.len() as int),
            forall|k: int| 0 <= k < rev.len() ==> #[trigger] rev@[k] == orig[n - 1 - k],
        decreases outcomes.len(),
    {
        let ghost before = outcomes@;
        let o = outcomes.pop().unwrap();
        assert(o == orig[outcomes.len() as int]);
        rev.push(o);
        assert(outcomes@ =~= orig.take(outcomes.len() as int));
    }
    let mut violations: Vec<Violation> = Vec::new();
    let mut failures: Vec<RuleFailure<E>> = Vec::new();
    while rev.len() > 0
        invariant
            n == orig.len(),
            rev.len() <= n,
            forall|k: int| 0 <= k < rev.len() ==> #[trigger] rev@[k] == orig[n - 1 - k],
            violations@ == gather(orig.take(n - rev.len()), |o: Outcome<E>| found(o)),
            failures@.map_values(|f: RuleFailure<E>| failure_view(f)) == gather(
                orig.take(n - rev.len()),
                |o: Outcome<E>| failed(o),
            ),
        decreases rev.len(),
    {
        let ghost m: int = n - rev.len();
        let ghost before = failures@;
        let o = rev.pop().unwrap();
        assert(o == orig[m]);
        assert(orig.take(m + 1).drop_last() =~= orig.take(m));
        match o.result {
            Ok(v) => {
                let mut v = v;
                violations.append(&mut v);
            },
            Err(e) => {
                failures.push(RuleFailure { rule: o.rule, error: e });
                assert(failures@.map_values(|f: RuleFailure<E>| failure_view(f)) =~= before.map_values(
                    |f: RuleFailure<E>| failure_view(f),
                ) + failed(orig[m]));
            },
        }
        assert(failures@.map_values(|f: RuleFailure<E>| failure_view(f)) =~= gather(
            orig.take(m + 1),
            |o: Outcome<E>| failed(o),
        ));
    }
    assert(orig.take(n) =~= orig);
    Report { violations, failures }
}

/// `outcomes` holds one round per note of `notes`, in order, and each
/// round holds one outcome per rule of `s`, in registry order: outcome `k`
/// is what rule `k % n` gave on note `k / n`, for `n` rules.
pub open spec fn rounds<E, R: Rule<Error = E>>(
    outcomes: Seq<Outcome<E>>,
    s: Seq<ToggleableRule<R>>,
    content: Content,
    notes: Seq<Note>,
) -> bool {
    &&& outcomes.len() == notes.len() * s.len()
    &&& forall|k: int|
        0 <= k < outcomes.len() ==> outcome_of(
            #[trigger] outcomes[k],
            s[k % (s.len() as int)],
            content,
            notes[k / (s.len() as int)],
        )
}

/// Runs every rule of the registry on every note of the content, note by
/// note and rule by rule, and gathers the outcomes. A rule that fails does
/// not stop the pass: its failure is reported and the other rules'
/// violations are kept.
pub fn run<R: Rule>(rules: &Rules<R>, content: &Content) -> (r: Report<R::Error>)
    ensures
        exists|outcomes: Seq<Outcome<R::Error>>|
            reports(r, outcomes) && rounds(outcomes, rules@, *content, notes_in(*content)),
{
    let notes = notes_of(content);
    let ghost n: int = rules@.len() as int;
    let mut outcomes: Vec<Outcome<R::Error>> = Vec::new();
    let mut d: usize = 0;
    while d < notes.len()
        invariant
            d <= notes.len(),
            notes@ == notes_in(*content),
            n == rules@.len(),
            outcomes@.len() == d * n,
            forall|k: int|
                0 <= k < outcomes@.len() ==> outcome_of(#[trigger] outcomes@[k], rules@[k % n], *content, notes@[k / n]),
        decreases notes.len() - d,
    {
        let mut round = check_note(rules, content, &notes[d]);
        let ghost before = outcomes@;
        let ghost fresh = round@;
        outcomes.append(&mut round);
        proof {
            assert((d + 1) * n == d * n + n) by (nonlinear_arith);
            assert forall|k: int| 0 <= k < outcomes@.len() implies outcome_of(
                #[trigger] outcomes@[k],
                rules@[k % n],
                *content,
                notes@[k / n],
            ) by {
                if k < d * n {
                    assert(outcomes@[k] == before[k]);
                } else {
                    let i = k - d * n;
                    lemma_fundamental_div_mod_converse(k, n, d as int, i);
                    assert(outcomes@[k] == fresh[i]);
                }
            }
        }
        d += 1;
    }
    let r = aggregate(outcomes);
    assert(reports(r, outcomes@) && rounds(outcomes@, rules@, *content, notes_in(*content)));
    r
}

/// Gathering over a sequence equals gathering over it without its `i`-th
/// element, plus what that element contributes.
proof fn lemma_gather_remove<A, U>(s: Seq<A>, f: spec_fn(A) -> Seq<U>, i: int)
    requires
        0 <= i < s.len(),
    ensures
        gather(s, f).to_multiset() == gather(s.remove(i), f).to_multiset().add(f(s[i]).to_multiset()),
    decreases s.len(),
{
    broadcast use vstd::seq_lib::lemma_multiset_commutative;
    broadcast use vstd::multiset::group_multiset_axioms;

    let dl = s.drop_last();
    if i == s.len() - 1 {
        assert(s.remove(i) =~= dl);
    } else {
        lemma_gather_remove(dl, f, i);
        assert(s.remove(i).drop_last() =~= dl.remove(i));
        assert(s.remove(i).last() == s.last());
        assert(dl[i] == s[i]);
        let g = gather(dl.remove(i), f).to_multiset();
        let a = f(s[i]).to_multiset();
        let b = f(s.last()).to_multiset();
        assert(g.add(a).add(b) =~= g.add(b).add(a));
    }
}

/// Gathering over two arrangements of the same elements gives the same
/// multiset.
proof fn lemma_gather_permutation<A, U>(a: Seq<A>, b: Seq<A>, f: spec_fn(A) -> Seq<U>)
    requires
        a.to_multiset() == b.to_multiset(),
    ensures
        gather(a, f).to_multiset() == gather(b, f).to_multiset(),
    decreases a.len(),
{
    broadcast use vstd::seq_lib::lemma_multiset_commutative;
    broadcast use vstd::seq_lib::group_to_multiset_ensures;
    broadcast use vstd::multiset::group_multiset_axioms;

    if a.len() == 0 {
        assert(b.to_multiset().len() == 0);
        assert(b.len() == 0);
        assert(gather(a, f) =~= gather(b, f));
    } else {
        let x = a.last();
        let dl = a.drop_last();
        assert(a =~= dl.push(x));
        assert(a.to_multiset().count(x) > 0);
        assert(b.contains(x));
        let i = choose|i: int| 0 <= i < b.len() && b[i] == x;
        assert(dl.to_multiset() =~= b.remove(i).to_multiset());
        lemma_gather_permutation(dl, b.remove(i), f);
        lemma_gather_remove(b, f, i);
    }
}

/// The outcome of a pass does not depend on the order in which the units
/// of work finish: two arrival orders of the same outcomes give the same
/// multiset of violations and the same multiset of failures.
pub proof fn lemma_order_independent<E>(a: Seq<Outcome<E>>, b: Seq<Outcome<E>>)
    requires
        a.to_multiset() == b.to_multiset(),
    ensures
        gather(a, |o: Outcome<E>| found(o)).to_multiset() == gather(b, |o: Outcome<E>| found(o)).to_multiset(),
        gather(a, |o: Outcome<E>| failed(o)).to_multiset() == gather(b, |o: Outcome<E>| failed(o)).to_multiset(),
{
    lemma_gather_permutation(a, b, |o: Outcome<E>| found(o));
    lemma_gather_permutation(a, b, |o: Outcome<E>| failed(o));
}

/// Gathering over a concatenation concatenates what is gathered.
proof fn lemma_gather_add<A, U>(a: Seq<A>, b: Seq<A>, f: spec_fn(A) -> Seq<U>)
    ensures
        gather(a + b, f) == gather(a, f) + gather(b, f),
    decreases b.len(),
{
    if b.len() == 0 {
        assert(a + b =~= a);
        assert(gather(a, f) + gather(b, f) =~= gather(a, f));
    } else {
        assert((a + b).drop_last() =~= a + b.drop_last());
        assert((a + b).last() == b.last());
        lemma_gather_add(a, b.drop_last(), f);
        assert(gather(a, f) + gather(b.drop_last(), f) + f(b.last()) =~= gather(a, f) + (gather(
            b.drop_last(),
            f,
        ) + f(b.last())));
    }
}

/// Two reports of the same outcomes, whatever order they arrived in, hold
/// the same multiset of violations and the same multiset of failures: a
/// pass whose rules give the same results on every run reports the same
/// on every run, however its work was scheduled.
pub proof fn lemma_reports_agree<E>(r1: Report<E>, r2: Report<E>, a: Seq<Outcome<E>>, b: Seq<Outcome<E>>)
    requires
        reports(r1, a),
        reports(r2, b),
        a.to_multiset() == b.to_multiset(),
    ensures
        r1.violations@.to_multiset() == r2.violations@.to_multiset(),
        r1.failures@.map_values(|f: RuleFailure<E>| failure_view(f)).to_multiset() == r2.failures@.map_values(
            |f: RuleFailure<E>| failure_view(f),
        ).to_multiset(),
{
    lemma_order_independent(a, b);
}

/// Alternating outcomes, the even ones finding exactly `v` and the odd
/// ones failing as `x`, gather one `v` and one `x` per pair.
proof fn lemma_alternating<E>(o: Seq<Outcome<E>>, d: nat, v: Violation, x: (Seq<char>, E))
    requires
        o.len() == 2 * d,
        forall|k: int|
            0 <= k < o.len() && k % 2 == 0 ==> found(#[trigger] o[k]) == seq![v] && failed(o[k])
                == Seq::<(Seq<char>, E)>::empty(),
        forall|k: int|
            0 <= k < o.len() && k % 2 == 1 ==> found(#[trigger] o[k]) == Seq::<Violation>::empty()
                && failed(o[k]) == seq![x],
    ensures
        gather(o, |q: Outcome<E>| found(q)) == Seq::new(d, |i: int| v),
        gather(o, |q: Outcome<E>| failed(q)) == Seq::new(d, |i: int| x),
    decreases d,
{
    let fd = |q: Outcome<E>| found(q);
    let fl = |q: Outcome<E>| failed(q);
    if d == 0 {
        assert(o =~= Seq::<Outcome<E>>::empty());
        assert(gather(o, fd) =~= Seq::new(d, |i: int| v));
        assert(gather(o, fl) =~= Seq::new(d, |i: int| x));
    } else {
        let m: int = d - 1;
        let p = o.take(2 * m);
        let a = o[2 * m];
        let b = o[2 * m + 1];
        assert(o =~= p + seq![a, b]);
        assert forall|k: int| 0 <= k < p.len() && k % 2 == 0 implies found(#[trigger] p[k])
            == seq![v] && failed(p[k]) == Seq::<(Seq<char>, E)>::empty() by {
            assert(p[k] == o[k]);
        }
        assert forall|k: int| 0 <= k < p.len() && k % 2 == 1 implies found(#[trigger] p[k])
            == Seq::<Violation>::empty() && failed(p[k]) == seq![x] by {
            assert(p[k] == o[k]);
        }
        lemma_alternating(p, m as nat, v, x);
        lemma_gather_add(p, seq![a, b], fd);
        lemma_gather_add(p, seq![a, b], fl);
        assert((2 * m) % 2 == 0);
        assert((2 * m + 1) % 2 == 1);
        assert(found(a) == seq![v]);
        assert(found(b) == Seq::<Violation>::empty());
        assert(seq![a, b].drop_last() =~= seq![a]);
        assert(seq![a].drop_last() =~= Seq::<Outcome<E>>::empty());
        assert(seq![a, b].last() == b);
        assert(seq![a].last() == a);
        assert(gather(Seq::<Outcome<E>>::empty(), fd) =~= Seq::<Violation>::empty());
        assert(gather(Seq::<Outcome<E>>::empty(), fl) =~= Seq::<(Seq<char>, E)>::empty());
        assert(gather(seq![a], fd) =~= gather(Seq::<Outcome<E>>::empty(), fd) + fd(a));
        assert(gather(seq![a], fl) =~= gather(Seq::<Outcome<E>>::empty(), fl) + fl(a));
        assert(gather(seq![a, b], fd) =~= gather(seq![a], fd) + fd(b));
        assert(gather(seq![a, b], fl) =~= gather(seq![a], fl) + fl(b));
        assert(gather(seq![a, b], fd) =~= seq![v]);
        assert(gather(seq![a, b], fl) =~= seq![x]);
        assert(gather(o, fd) =~= Seq::new(d, |i: int| v));
        assert(gather(o, fl) =~= Seq::new(d, |i: int| x));
    }
}

/// A pass of two enabled rules, the first of which finds exactly `v` on
/// every note and the second of which fails with `e` on every note,
/// reports one `v` and one failure of the second rule per note, and
/// nothing else: the failing rule takes nothing from the other.
pub proof fn lemma_one_violation_one_failure_per_note<E, R: Rule<Error = E>>(
    outcomes: Seq<Outcome<E>>,
    s: Seq<ToggleableRule<R>>,
    content: Content,
    notes: Seq<Note>,
    v: Violation,
    e: E,
)
    requires
        s.len() == 2,
        s[0].enabled_spec(),
        s[1].enabled_spec(),
        rounds(outcomes, s, content, notes),
        forall|n: Note, r: Result<Vec<Violation>, E>|
            #[trigger] call_ensures(R::check, (&s[0].inner(), &content, &n), r) ==> (r matches Ok(vs)
                && vs@ == seq![v]),
        forall|n: Note, r: Result<Vec<Violation>, E>|
            #[trigger] call_ensures(R::check, (&s[1].inner(), &content, &n), r) ==> (r matches Err(x)
                && x == e),
    ensures
        gather(outcomes, |o: Outcome<E>| found(o)) == Seq::new(notes.len(), |i: int| v),
        gather(outcomes, |o: Outcome<E>| failed(o)) == Seq::new(
            notes.len(),
            |i: int| (s[1].name_spec(), e),
        ),
{
    let x = (s[1].name_spec(), e);
    assert forall|k: int| 0 <= k < outcomes.len() && k % 2 == 0 implies found(#[trigger] outcomes[k])
        == seq![v] && failed(outcomes[k]) == Seq::<(Seq<char>, E)>::empty() by {
        assert(outcome_of(outcomes[k], s[k % 2], content, notes[k / 2]));
        assert(call_ensures(R::check, (&s[0].inner(), &content, &notes[k / 2]), outcomes[k].result));
        assert(found(outcomes[k]) =~= seq![v]);
    }
    assert forall|k: int| 0 <= k < outcomes.len() && k % 2 == 1 implies found(#[trigger] outcomes[k])
        == Seq::<Violation>::empty() && failed(outcomes[k]) == seq![x] by {
        assert(outcome_of(outcomes[k], s[k % 2], content, notes[k / 2]));
        assert(call_ensures(R::check, (&s[1].inner(), &content, &notes[k / 2]), outcomes[k].result));
        assert(failed(outcomes[k]) =~= seq![x]);
    }
    lemma_alternating(outcomes, notes.len(), v, x);
}

/// Gathering over two sequences whose elements contribute alike gives the same.
proof fn lemma_gather_pointwise<A, U>(a: Seq<A>, b: Seq<A>, f: spec_fn(A) -> Seq<U>)
    requires
        a.len() == b.len(),
        forall|k: int| 0 <= k < a.len() ==> f(#[trigger] a[k]) == f(b[k]),
    ensures
        gather(a, f) == gather(b, f),
    decreases a.len(),
{
    if a.len() > 0 {
        assert forall|k: int| 0 <= k < a.drop_last().len() implies f(#[trigger] a.drop_last()[k])
            == f(b.drop_last()[k]) by {
            assert(a.drop_last()[k] == a[k] && b.drop_last()[k] == b[k]);
        }
        lemma_gather_pointwise(a.drop_last(), b.drop_last(), f);
        assert(f(a.last()) == f(b.last()));
    }
}

/// Two passes over the same rules, content and notes report the same
/// violations and the same failures, in the same order, whenever each
/// rule's check gives one result for one content and note.
pub proof fn lemma_runs_agree<E, R: Rule<Error = E>>(
    r1: Report<E>,
    r2: Report<E>,
    o1: Seq<Outcome<E>>,
    o2: Seq<Outcome<E>>,
    s: Seq<ToggleableRule<R>>,
    content: Content,
    notes: Seq<Note>,
)
    requires
        reports(r1, o1),
        reports(r2, o2),
        rounds(o1, s, content, notes),
        rounds(o2, s, content, notes),
        forall|i: int, n: Note, a: Result<Vec<Violation>, E>, b: Result<Vec<Violation>, E>|
            #![trigger call_ensures(R::check, (&s[i].inner(), &content, &n), a), call_ensures(R::check, (&s[i].inner(), &content, &n), b)]
            0 <= i < s.len() && call_ensures(R::check, (&s[i].inner(), &content, &n), a)
                && call_ensures(R::check, (&s[i].inner(), &content, &n), b) ==> a == b,
    ensures
        r1.violations@ == r2.violations@,
        r1.failures@.map_values(|f: RuleFailure<E>| failure_view(f)) == r2.failures@.map_values(
            |f: RuleFailure<E>| failure_view(f),
        ),
{
    let n = s.len() as int;
    if n == 0 {
        assert(o1.len() == 0);
    }
    assert forall|k: int| 0 <= k < o1.len() implies found(#[trigger] o1[k]) == found(o2[k]) && failed(
        o1[k],
    ) == failed(o2[k]) by {
        assert(n > 0);
        vstd::arithmetic::div_mod::lemma_mod_bound(k, n);
        assert(outcome_of(o1[k], s[k % n], content, notes[k / n]));
        assert(outcome_of(o2[k], s[k % n], content, notes[k / n]));
        if s[k % n].enabled_spec() {
            assert(call_ensures(R::check, (&s[k % n].inner(), &content, &notes[k / n]), o1[k].result));
            assert(call_ensures(R::check, (&s[k % n].inner(), &content, &notes[k / n]), o2[k].result));
            assert(o1[k].result == o2[k].result);
        } else {
            assert(found(o1[k]) =~= found(o2[k]));
            assert(failed(o1[k]) =~= failed(o2[k]));
        }
    }
    assert forall|k: int| 0 <= k < o1.len() implies (|o: Outcome<E>| found(o))(#[trigger] o1[k])
        == (|o: Outcome<E>| found(o))(o2[k]) by {
        assert(found(o1[k]) == found(o2[k]));
    }
    assert forall|k: int| 0 <= k < o1.len() implies (|o: Outcome<E>| failed(o))(#[trigger] o1[k])
        == (|o: Outcome<E>| failed(o))(o2[k]) by {
        assert(failed(o1[k]) == failed(o2[k]));
    }
    lemma_gather_pointwise(o1, o2, |o: Outcome<E>| found(o));
    lemma_gather_pointwise(o1, o2, |o: Outcome<E>| failed(o));
}

/// A failing rule costs only its own contribution: of an outcome that found
/// exactly one violation and an outcome that failed, in either order, the
/// report holds exactly that violation and exactly that failure.
pub proof fn lemma_failure_isolated<E>(good: Outcome<E>, bad: Outcome<E>, v: Violation, e: E)
    requires
        good.result matches Ok(vs) && vs@ == seq![v],
        bad.result matches Err(x) && x == e,
    ensures
        gather(seq![good, bad], |o: Outcome<E>| found(o)) == seq![v],
        gather(seq![bad, good], |o: Outcome<E>| found(o)) == seq![v],
        gather(seq![good, bad], |o: Outcome<E>| failed(o)) == seq![(bad.rule@, e)],
        gather(seq![bad, good], |o: Outcome<E>| failed(o)) == seq![(bad.rule@, e)],
{
    let fd = |o: Outcome<E>| found(o);
    let fl = |o: Outcome<E>| failed(o);
    assert(seq![good, bad].drop_last() =~= seq![good]);
    assert(seq![bad, good].drop_last() =~= seq![bad]);
    assert(seq![good].drop_last() =~= Seq::<Outcome<E>>::empty());
    assert(seq![bad].drop_last() =~= Seq::<Outcome<E>>::empty());
    assert(gather(Seq::<Outcome<E>>::empty(), fd) =~= Seq::<Violation>::empty());
    assert(gather(Seq::<Outcome<E>>::empty(), fl) =~= Seq::<(Seq<char>, E)>::empty());
    assert(found(good) =~= seq![v]);
    assert(failed(good) =~= Seq::<(Seq<char>, E)>::empty());
    assert(gather(seq![good], fd) =~= seq![v]);
    assert(gather(seq![bad], fd) =~= Seq::<Violation>::empty());
    assert(gather(seq![good, bad], fd) =~= seq![v]);
    assert(gather(seq![bad, good], fd) =~= seq![v]);
    assert(gather(seq![good], fl) =~= Seq::<(Seq<char>, E)>::empty());
    assert(gather(seq![bad], fl) =~= seq![(bad.rule@, e)]);
    assert(gather(seq![good, bad], fl) =~= seq![(bad.rule@, e)]);
    assert(gather(seq![bad, good], fl) =~= seq![(bad.rule@, e)]);
}

} // verus!
