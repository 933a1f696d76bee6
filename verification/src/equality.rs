//! Equality of records: two records are equal when all their fields are.

use crate::soul::Soul;
use vstd::prelude::*;

verus! {

impl PartialEq for Soul {
    fn eq(&self, other: &Soul) -> (r: bool) {
        let mut same: bool = self.level == other.level && self.xp == other.xp && self.hp
            == other.hp;
        let mut i: usize = 0;
        while i < 8
            invariant
                i <= 8,
                same == (self.level == other.level && self.xp == other.xp && self.hp == other.hp
                    && forall|j: int| 0 <= j < i ==> self.quests[j] == other.quests[j]),
            decreases 8 - i,
        {
            if self.quests[i] != other.quests[i] {
                same = false;
            }
            i = i + 1;
        }
        proof {
            if same {
                assert(self.quests@ =~= other.quests@);
            }
        }
        same
    }
}

impl vstd::std_specs::cmp::PartialEqSpecImpl for Soul {
    open spec fn obeys_eq_spec() -> bool {
        true
    }

    open spec fn eq_spec(&self, other: &Soul) -> bool {
        self@ == other@
    }
}

} // verus!
