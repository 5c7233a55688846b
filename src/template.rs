//! Ready-made registries built from a catalog of rules.

use crate::config::catalog_names;
use crate::rule::{share, Rule};
use crate::rules::{first_position, names, Rules};
use crate::toggleable_rule::ToggleableRule;
use std::sync::Arc;
use vstd::prelude::*;

verus! {

/// The name of the rule that the standard template enables.
pub const STANDARD_RULE: &'static str = "empty-content";

/// A starting configuration.
#[derive(Debug, Clone, Copy, PartialEq, Eq, Structural)]
pub enum Template {
    /// Every rule enabled.
    All,
    /// The recommended rules enabled, the others disabled.
    Standard,
    /// Every rule disabled.
    Empty,
}

impl Template {
    /// Whether the template enables the rule named `name`.
    pub open spec fn enables(self, name: Seq<char>) -> bool {
        match self {
            Template::All => true,
            Template::Standard => name == STANDARD_RULE@,
            Template::Empty => false,
        }
    }

    /// The registry of the template: every rule of the catalog, in order,
    /// enabled as the template says.
    pub fn rules<R: Rule>(self, catalog: &Vec<Arc<R>>) -> (r: Rules<Arc<R>>)
        requires
            catalog_names(catalog@).no_duplicates(),
        ensures
            r.wf(),
            r@.len() == catalog@.len(),
            forall|i: int| 0 <= i < catalog@.len() ==> #[trigger] r@[i].inner() == catalog@[i],
            forall|i: int|
                0 <= i < catalog@.len() ==> #[trigger] r@[i].enabled_spec() == self.enables(
                    catalog@[i].name_spec(),
                ),
    {
        let all = match self {
            Template::All => true,
            _ => false,
        };
        let mut v: Vec<ToggleableRule<Arc<R>>> = Vec::new();
        let mut i: usize = 0;
        while i < catalog.len()
            invariant
                i <= catalog.len(),
                v@.len() == i,
                names(v@) == catalog_names(catalog@).take(i as int),
                all == (self == Template::All),
                forall|k: int| 0 <= k < i ==> #[trigger] v@[k].inner() == catalog@[k],
                forall|k: int| 0 <= k < i ==> #[trigger] v@[k].enabled_spec() == all,
            decreases catalog.len() - i,
        {
            let ghost before = v@;
            let t = ToggleableRule::new(share(&catalog[i]), all);
            assert(t.enabled_spec() == all);
            assert(all == (self == Template::All));
            v.push(t);
            assert(v@ =~= before.push(t));
            assert(v@[i as int].inner() == catalog@[i as int]);
            assert forall|k: int| 0 <= k < i + 1 implies #[trigger] v@[k].inner() == catalog@[k] by {
                if k < i {
                    assert(v@[k] == before[k]);
                    assert(before[k].inner() == catalog@[k]);
                }
            }
            assert forall|k: int| 0 <= k < i + 1 implies #[trigger] v@[k].enabled_spec() == all by {
                if k < i {
                    assert(v@[k] == before[k]);
                    assert(before[k].enabled_spec() == all);
                }
            }
            assert(names(v@) =~= catalog_names(catalog@).take(i as int + 1)) by {
                assert(names(v@) =~= names(before).push(catalog@[i as int].name_spec()));
                assert(catalog_names(catalog@).take(i as int + 1) =~= catalog_names(catalog@).take(
                    i as int,
                ).push(catalog_names(catalog@)[i as int]));
            }
            i += 1;
        }
        assert(catalog_names(catalog@).take(i as int) =~= catalog_names(catalog@));
        let mut reg = match Rules::new(v) {
            Ok(reg) => reg,
            Err(_) => {
                assert(false);
                Rules::new(Vec::new()).unwrap()
            },
        };
        match self {
            Template::Standard => {
                let ghost before = reg@;
                reg.set_enabled_by_name(STANDARD_RULE, true);
                proof {
                    reveal_strlit("empty-content");
                    assert forall|i: int| 0 <= i < catalog@.len() implies #[trigger] names(reg@)[i]
                        == names(before)[i] by {
                        assert(reg@[i].inner() == before[i].inner());
                    }
                    assert forall|i: int| 0 <= i < catalog@.len() implies #[trigger] reg@[i].inner()
                        == catalog@[i] by {
                        assert(reg@[i].inner() == before[i].inner());
                        assert(before[i].inner() == catalog@[i]);
                    }
                    assert forall|i: int| 0 <= i < catalog@.len() implies #[trigger] reg@[i].enabled_spec()
                        == self.enables(catalog@[i].name_spec()) by {
                        assert(names(before)[i] == catalog@[i].name_spec());
                        assert(before[i].inner() == catalog@[i]);
                        assert(reg@[i].inner() == before[i].inner());
                        if names(before).contains(STANDARD_RULE@) {
                            let p = first_position(names(before), STANDARD_RULE@);
                            if i != p {
                                assert(names(before)[i] != STANDARD_RULE@);
                            }
                        }
                    }
                    assert(names(reg@) =~= names(before));
                }
            },
            _ => {},
        }
        reg
    }
}

} // verus!
