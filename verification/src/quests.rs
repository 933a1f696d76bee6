//! Quest slots: which quests are active, and taking and dropping quests.
//!
//! A slot holds a quest id, or 0 when it is empty. Only the first
//! `unlocked_slots` slots are in use; the rest are locked.

use crate::error::SoulError;
use crate::soul::{Soul, SoulView, QUEST_SLOTS};
use vstd::prelude::*;

verus! {

/// Index of the first zero of `slots` in `from..to`, or `to` if there is none.
pub open spec fn first_zero(slots: Seq<u32>, from: int, to: int) -> int
    decreases to - from,
{
    if from >= to {
        to
    } else if slots[from] == 0 {
        from
    } else {
        first_zero(slots, from + 1, to)
    }
}

impl SoulView {
    /// The active quests: the non-zero ids among the unlocked slots, in slot
    /// order. Slots beyond the unlocked count do not count, whatever they
    /// hold.
    pub open spec fn active_quests(self) -> Seq<u32> {
        self.quests.take(self.unlocked_slots()).filter(|q: u32| q != 0)
    }

    /// Whether `id` is among the active quests.
    pub open spec fn has_quest(self, id: u32) -> bool {
        self.active_quests().contains(id)
    }

    /// Index of the first empty unlocked slot, or the unlocked count if every
    /// unlocked slot is occupied.
    pub open spec fn first_empty_slot(self) -> int {
        first_zero(self.quests, 0, self.unlocked_slots())
    }

    /// No two unlocked slots hold the same non-zero id.
    pub open spec fn distinct_quests(self) -> bool {
        forall|i: int, j: int|
            0 <= i < j < self.unlocked_slots() && self.quests[i] != 0 ==> self.quests[i]
                != self.quests[j]
    }

    /// Adding a quest: the record afterwards and the answer. Id 0 is
    /// refused, then an id that is already active; otherwise the first empty
    /// unlocked slot takes the id and its index is the answer. A refusal
    /// leaves the record as it was.
    pub open spec fn add_quest(self, id: u32) -> (SoulView, Result<usize, SoulError>) {
        let slot = self.first_empty_slot();
        if id == 0 {
            (self, Err(SoulError::InvalidQuest))
        } else if self.has_quest(id) {
            (self, Err(SoulError::QuestAlreadyActive))
        } else if slot < self.unlocked_slots() {
            (SoulView { quests: self.quests.update(slot, id), ..self }, Ok(slot as usize))
        } else {
            (self, Err(SoulError::NoQuestSlots))
        }
    }

    /// Removing a quest: every slot equal to `id`, unlocked or not, becomes
    /// empty; the answer says whether any slot matched.
    pub open spec fn remove_quest(self, id: u32) -> (SoulView, bool) {
        (
            SoulView {
                quests: Seq::new(
                    self.quests.len(),
                    |i: int|
                        if self.quests[i] == id {
                            0u32
                        } else {
                            self.quests[i]
                        },
                ),
                ..self
            },
            self.quests.contains(id),
        )
    }
}

impl Soul {
    /// The active quests: the non-zero ids in the unlocked slots, in slot
    /// order.
    pub fn active_quests(&self) -> (v: Vec<u32>)
        ensures
            v@ == self@.active_quests(),
    {
        let unlocked = self.unlocked_quest_slots();
        let mut v: Vec<u32> = Vec::new();
        let ghost keep = |q: u32| q != 0;
        proof {
            reveal(Seq::filter);
            assert(self.quests@.take(0).filter(keep) =~= Seq::<u32>::empty());
        }
        let mut i: usize = 0;
        while i < unlocked
            invariant
                i <= unlocked <= 8,
                keep == (|q: u32| q != 0),
                v@ == self.quests@.take(i as int).filter(keep),
            decreases unlocked - i,
        {
            proof {
                reveal(Seq::filter);
                assert(self.quests@.take(i + 1).drop_last() =~= self.quests@.take(i as int));
            }
            if self.quests[i] != 0 {
                v.push(self.quests[i]);
            }
            i = i + 1;
        }
        v
    }

    /// Whether `quest_id` is among the active quests. Id 0 never is.
    pub fn has_quest(&self, quest_id: u32) -> (b: bool)
        ensures
            b == self@.has_quest(quest_id),
    {
        let active = self.active_quests();
        let mut i: usize = 0;
        while i < active.len()
            invariant
                i <= active.len(),
                active@ == self@.active_quests(),
                forall|j: int| 0 <= j < i ==> active@[j] != quest_id,
            decreases active.len() - i,
        {
            if active[i] == quest_id {
                assert(active@[i as int] == quest_id);
                return true;
            }
            i = i + 1;
        }
        false
    }

    /// Puts `quest_id` into the first empty unlocked slot and answers its
    /// index. Fails, leaving the record untouched, with `InvalidQuest` for id
    /// 0, `QuestAlreadyActive` if the id is active already, and
    /// `NoQuestSlots` if no unlocked slot is empty. Locked slots are never
    /// written.
    pub fn add_quest(&mut self, quest_id: u32) -> (r: Result<usize, SoulError>)
        ensures
            final(self)@ == old(self)@.add_quest(quest_id).0,
            r == old(self)@.add_quest(quest_id).1,
    {
        if quest_id == 0 {
            return Err(SoulError::InvalidQuest);
        }
        if self.has_quest(quest_id) {
            return Err(SoulError::QuestAlreadyActive);
        }
        let unlocked = self.unlocked_quest_slots();
        proof {
            lemma_first_zero(self.quests@, 0, unlocked as int);
        }
        let mut i: usize = 0;
        while i < unlocked
            invariant
                i <= unlocked <= 8,
                unlocked == old(self)@.unlocked_slots(),
                quest_id != 0,
                !old(self)@.has_quest(quest_id),
                *self == *old(self),
                i <= old(self)@.first_empty_slot() <= unlocked,
                old(self)@.first_empty_slot() < unlocked ==> old(self).quests@[old(
                    self,
                )@.first_empty_slot()] == 0,
            decreases unlocked - i,
        {
            if self.quests[i] == 0 {
                proof {
                    lemma_first_zero(self.quests@, 0, unlocked as int);
                }
                self.quests[i] = quest_id;
                assert(self@.quests =~= old(self)@.quests.update(i as int, quest_id));
                return Ok(i);
            }
            i = i + 1;
        }
        Err(SoulError::NoQuestSlots)
    }

    /// Empties every slot that holds `quest_id`, locked slots included, and
    /// answers whether there was one.
    pub fn remove_quest(&mut self, quest_id: u32) -> (removed: bool)
        ensures
            final(self)@ == old(self)@.remove_quest(quest_id).0,
            removed == old(self)@.remove_quest(quest_id).1,
    {
        let mut removed = false;
        let mut i: usize = 0;
        while i < QUEST_SLOTS
            invariant
                i <= 8,
                self.level == old(self).level,
                self.xp == old(self).xp,
                self.hp == old(self).hp,
                forall|j: int|
                    0 <= j < i ==> self.quests@[j] == (if old(self).quests@[j] == quest_id {
                        0u32
                    } else {
                        old(self).quests@[j]
                    }),
                forall|j: int| i <= j < 8 ==> self.quests@[j] == old(self).quests@[j],
                removed <==> exists|j: int| 0 <= j < i && old(self).quests@[j] == quest_id,
            decreases 8 - i,
        {
            if self.quests[i] == quest_id {
                self.quests[i] = 0;
                removed = true;
            }
            i = i + 1;
        }
        assert(self@.quests =~= old(self)@.remove_quest(quest_id).0.quests);
        removed
    }
}

/// `first_zero` finds a zero, none lies before it, and it answers `to` only
/// when the range holds none.
pub proof fn lemma_first_zero(slots: Seq<u32>, from: int, to: int)
    requires
        from <= to,
    ensures
        from <= first_zero(slots, from, to) <= to,
        forall|j: int| from <= j < first_zero(slots, from, to) ==> slots[j] != 0,
        first_zero(slots, from, to) < to ==> slots[first_zero(slots, from, to)] == 0,
    decreases to - from,
{
    if from < to && slots[from] != 0 {
        lemma_first_zero(slots, from + 1, to);
    }
}

/// An id is among the non-zero entries of the first `n` slots exactly when
/// it is not 0 and one of those slots holds it.
pub proof fn lemma_filtered_contains(slots: Seq<u32>, n: int, id: u32)
    requires
        0 <= n <= slots.len(),
    ensures
        slots.take(n).filter(|q: u32| q != 0).contains(id) <==> id != 0 && exists|i: int|
            0 <= i < n && slots[i] == id,
    decreases n,
{
    let keep = |q: u32| q != 0;
    reveal(Seq::filter);
    if n == 0 {
        assert(slots.take(0).filter(keep) =~= Seq::<u32>::empty());
    } else {
        lemma_filtered_contains(slots, n - 1, id);
        let head = slots.take(n - 1).filter(keep);
        assert(slots.take(n).drop_last() =~= slots.take(n - 1));
        assert(slots.take(n).last() == slots[n - 1]);
        let all = slots.take(n).filter(keep);
        if slots[n - 1] != 0 {
            assert(all == head.push(slots[n - 1]));
            assert(all.contains(id) <==> head.contains(id) || slots[n - 1] == id) by {
                if head.contains(id) {
                    let k = choose|k: int| 0 <= k < head.len() && head[k] == id;
                    assert(all[k] == id);
                }
                if slots[n - 1] == id {
                    assert(all[all.len() - 1] == id);
                }
            }
        } else {
            assert(all == head);
        }
    }
}

/// A quest is active exactly when its id is not 0 and an unlocked slot
/// holds it.
pub proof fn lemma_has_quest(v: SoulView, id: u32)
    requires
        v.well_formed(),
    ensures
        v.has_quest(id) <==> id != 0 && exists|i: int|
            0 <= i < v.unlocked_slots() && v.quests[i] == id,
{
    lemma_filtered_contains(v.quests, v.unlocked_slots(), id);
}

/// Adding id 0 fails with `InvalidQuest`, whatever the record holds, and
/// leaves the record as it was.
pub proof fn lemma_add_quest_zero(v: SoulView)
    ensures
        v.add_quest(0) == (v, Err::<usize, SoulError>(SoulError::InvalidQuest)),
{
}

/// A quest that was added is active afterwards, and so is one that was
/// refused for being active already.
pub proof fn lemma_add_quest_activates(v: SoulView, id: u32)
    requires
        v.well_formed(),
        v.add_quest(id).1 is Ok || v.add_quest(id).1 == Err::<usize, SoulError>(
            SoulError::QuestAlreadyActive,
        ),
    ensures
        v.add_quest(id).0.has_quest(id),
{
    let after = v.add_quest(id).0;
    if v.add_quest(id).1 is Ok {
        let slot = v.first_empty_slot();
        lemma_first_zero(v.quests, 0, v.unlocked_slots());
        assert(after.quests[slot] == id);
        lemma_has_quest(after, id);
    }
}

/// Adding the same non-zero id a second time fails with
/// `QuestAlreadyActive` and changes nothing, unless the first attempt found
/// no slot.
pub proof fn lemma_add_quest_twice(v: SoulView, id: u32)
    requires
        v.well_formed(),
        id != 0,
        v.add_quest(id).1 != Err::<usize, SoulError>(SoulError::NoQuestSlots),
    ensures
        v.add_quest(id).0.add_quest(id) == (
            v.add_quest(id).0,
            Err::<usize, SoulError>(SoulError::QuestAlreadyActive),
        ),
{
    lemma_add_quest_activates(v, id);
}

/// With every unlocked slot occupied, adding a new quest fails with
/// `NoQuestSlots` and changes nothing, even where a locked slot is empty.
pub proof fn lemma_add_quest_full(v: SoulView, id: u32)
    requires
        v.well_formed(),
        id != 0,
        !v.has_quest(id),
        forall|i: int| 0 <= i < v.unlocked_slots() ==> v.quests[i] != 0,
    ensures
        v.add_quest(id) == (v, Err::<usize, SoulError>(SoulError::NoQuestSlots)),
{
    lemma_first_zero(v.quests, 0, v.unlocked_slots());
}

/// Adding a quest touches one slot at most: the first empty unlocked one.
/// Every other slot, and every locked slot, keeps what it held; level,
/// experience and hit points stay.
pub proof fn lemma_add_quest_frame(v: SoulView, id: u32)
    requires
        v.well_formed(),
    ensures
        v.add_quest(id).0.well_formed(),
        v.add_quest(id).0.level == v.level,
        v.add_quest(id).0.xp == v.xp,
        v.add_quest(id).0.hp == v.hp,
        forall|i: int|
            0 <= i < 8 && i != v.first_empty_slot() ==> v.add_quest(id).0.quests[i] == v.quests[i],
        forall|i: int| v.unlocked_slots() <= i < 8 ==> v.add_quest(id).0.quests[i] == v.quests[i],
        v.add_quest(id).1 matches Ok(slot) ==> {
            &&& slot == v.first_empty_slot()
            &&& slot < v.unlocked_slots()
            &&& v.quests[slot as int] == 0
            &&& v.add_quest(id).0.quests[slot as int] == id
        },
{
    lemma_first_zero(v.quests, 0, v.unlocked_slots());
}

/// Adding a quest never makes two unlocked slots hold the same quest.
pub proof fn lemma_add_quest_keeps_distinct(v: SoulView, id: u32)
    requires
        v.well_formed(),
        v.distinct_quests(),
    ensures
        v.add_quest(id).0.distinct_quests(),
{
    let after = v.add_quest(id).0;
    if v.add_quest(id).1 is Ok {
        let slot = v.first_empty_slot();
        lemma_first_zero(v.quests, 0, v.unlocked_slots());
        lemma_has_quest(v, id);
        assert forall|i: int, j: int|
            0 <= i < j < after.unlocked_slots() && after.quests[i] != 0 implies after.quests[i]
            != after.quests[j] by {
            if i == slot {
                assert(v.quests[j] != id);
            } else if j == slot {
                assert(v.quests[i] != id);
            }
        }
    }
}

/// Removing an id that no slot holds answers false and leaves the record
/// as it was.
pub proof fn lemma_remove_quest_absent(v: SoulView, id: u32)
    requires
        !v.quests.contains(id),
    ensures
        v.remove_quest(id) == (v, false),
{
    assert(v.remove_quest(id).0.quests =~= v.quests);
}

/// Removing an id that some slot holds answers true and empties every slot
/// that held it, unlocked or locked; the other slots keep what they held.
/// Afterwards the quest is not active.
pub proof fn lemma_remove_quest_present(v: SoulView, id: u32)
    requires
        v.well_formed(),
        v.quests.contains(id),
    ensures
        v.remove_quest(id).1,
        v.remove_quest(id).0.well_formed(),
        forall|i: int| 0 <= i < 8 && v.quests[i] == id ==> v.remove_quest(id).0.quests[i] == 0,
        forall|i: int|
            0 <= i < 8 && v.quests[i] != id ==> v.remove_quest(id).0.quests[i] == v.quests[i],
        !v.remove_quest(id).0.has_quest(id),
{
    lemma_has_quest(v.remove_quest(id).0, id);
}

/// Removing a quest never makes two unlocked slots hold the same quest.
pub proof fn lemma_remove_quest_keeps_distinct(v: SoulView, id: u32)
    requires
        v.well_formed(),
        v.distinct_quests(),
    ensures
        v.remove_quest(id).0.distinct_quests(),
{
}

} // verus!
