//! The quest journal: which quest to offer next, and how far the rat hunt
//! has come.

use crate::quests::lemma_first_zero;
use crate::soul::{Soul, SoulView};
use crate::text::{chars_of, matches_at};
use vstd::prelude::*;

verus! {

/// Clear the sewer of rats.
pub const QUEST_SEWER_CLEANSE: u32 = 1;

/// Find the hidden crack in the sewer.
pub const QUEST_THE_CRACK: u32 = 2;

/// Unlock the door behind the crack.
pub const QUEST_LOCKED_DOOR: u32 = 3;

/// Link a portal from home.
pub const QUEST_PORTAL_HOME: u32 = 4;

/// Find the treasure in the maze.
pub const QUEST_NAVIGATE_MAZE: u32 = 5;

/// What the journal has to offer a player.
#[derive(Debug, Clone, Copy, PartialEq, Eq, Structural)]
pub enum Offer {
    /// This quest is offered.
    Quest(u32),
    /// There is an empty slot, but no quest that the player's level allows
    /// and that the player does not have.
    NoneAvailable,
    /// Every unlocked slot holds a quest.
    SlotsFull,
}

/// Number of unlocked slots that hold no active quest.
pub open spec fn spec_empty_slots(v: SoulView) -> int {
    v.unlocked_slots() - v.active_quests().len()
}

/// The offer for a record. With no empty slot there is none. Otherwise the
/// first quest of the list that the player does not have and whose level the
/// player has reached is offered: the sewer cleanse from level 0, the crack
/// from 2, the locked door from 3, the portal home from 5, the maze from 6.
/// A later quest is only considered once the player has the sewer cleanse.
pub open spec fn spec_next_offer(v: SoulView) -> Offer {
    if spec_empty_slots(v) <= 0 {
        Offer::SlotsFull
    } else if !v.has_quest(QUEST_SEWER_CLEANSE) {
        Offer::Quest(QUEST_SEWER_CLEANSE)
    } else if v.level >= 2 && !v.has_quest(QUEST_THE_CRACK) {
        Offer::Quest(QUEST_THE_CRACK)
    } else if v.level >= 3 && !v.has_quest(QUEST_LOCKED_DOOR) {
        Offer::Quest(QUEST_LOCKED_DOOR)
    } else if v.level >= 5 && !v.has_quest(QUEST_PORTAL_HOME) {
        Offer::Quest(QUEST_PORTAL_HOME)
    } else if v.level >= 6 && !v.has_quest(QUEST_NAVIGATE_MAZE) {
        Offer::Quest(QUEST_NAVIGATE_MAZE)
    } else {
        Offer::NoneAvailable
    }
}

/// The active quests are as many as the unlocked slots that are not empty:
/// never more than there are unlocked slots, exactly as many where every
/// unlocked slot is occupied, and none where every one is empty.
pub proof fn lemma_active_count(slots: Seq<u32>, n: int)
    requires
        0 <= n <= slots.len(),
    ensures
        slots.take(n).filter(|q: u32| q != 0).len() <= n,
        (forall|i: int| 0 <= i < n ==> slots[i] != 0) ==> slots.take(n).filter(
            |q: u32| q != 0,
        ).len() == n,
        (forall|i: int| 0 <= i < n ==> slots[i] == 0) ==> slots.take(n).filter(
            |q: u32| q != 0,
        ).len() == 0,
    decreases n,
{
    let keep = |q: u32| q != 0;
    reveal(Seq::filter);
    if n == 0 {
        assert(slots.take(0).filter(keep) =~= Seq::<u32>::empty());
    } else {
        lemma_active_count(slots, n - 1);
        assert(slots.take(n).drop_last() =~= slots.take(n - 1));
        assert(slots.take(n).last() == slots[n - 1]);
    }
}

/// A quest that is offered can be taken: adding it succeeds.
pub proof fn lemma_offer_can_be_added(v: SoulView)
    requires
        v.well_formed(),
    ensures
        spec_next_offer(v) matches Offer::Quest(id) ==> v.add_quest(id).1 is Ok,
        0 <= spec_empty_slots(v) <= 8,
{
    lemma_active_count(v.quests, v.unlocked_slots());
    lemma_first_zero(v.quests, 0, v.unlocked_slots());
}

/// Number of unlocked slots without an active quest.
pub fn empty_slots(soul: &Soul) -> (n: usize)
    ensures
        n == spec_empty_slots(soul@),
{
    let unlocked = soul.unlocked_quest_slots();
    let used = soul.active_quests().len();
    proof {
        lemma_active_count(soul@.quests, soul@.unlocked_slots());
    }
    unlocked - used
}

/// The quest to offer the player next, if any.
pub fn next_offer(soul: &Soul) -> (offer: Offer)
    ensures
        offer == spec_next_offer(soul@),
{
    let level = soul.level;
    if empty_slots(soul) == 0 {
        Offer::SlotsFull
    } else if !soul.has_quest(QUEST_SEWER_CLEANSE) {
        Offer::Quest(QUEST_SEWER_CLEANSE)
    } else if level >= 2 && !soul.has_quest(QUEST_THE_CRACK) {
        Offer::Quest(QUEST_THE_CRACK)
    } else if level >= 3 && !soul.has_quest(QUEST_LOCKED_DOOR) {
        Offer::Quest(QUEST_LOCKED_DOOR)
    } else if level >= 5 && !soul.has_quest(QUEST_PORTAL_HOME) {
        Offer::Quest(QUEST_PORTAL_HOME)
    } else if level >= 6 && !soul.has_quest(QUEST_NAVIGATE_MAZE) {
        Offer::Quest(QUEST_NAVIGATE_MAZE)
    } else {
        Offer::NoneAvailable
    }
}

/// Whether a file name is that of a rat: it ends in `.rat`.
pub open spec fn is_rat_name(name: Seq<char>) -> bool {
    name.len() >= 4 && name.subrange(name.len() - 4, name.len() as int) == ".rat"@
}

/// How many of `names` are names of rats.
pub open spec fn spec_count_rats(names: Seq<String>) -> nat
    decreases names.len(),
{
    if names.len() == 0 {
        0
    } else {
        spec_count_rats(names.drop_last()) + if is_rat_name(names.last()@) {
            1nat
        } else {
            0nat
        }
    }
}

/// Whether `name` ends in `.rat`.
pub fn is_rat(name: &str) -> (b: bool)
    ensures
        b == is_rat_name(name@),
{
    let chars = chars_of(name);
    let suffix = chars_of(".rat");
    proof {
        reveal_strlit(".rat");
    }
    if chars.len() < 4 {
        return false;
    }
    matches_at(chars.as_slice(), suffix.as_slice(), chars.len() - 4)
}

/// Counts the rats among the file names of the sewer. The hunt is over when
/// there are none.
pub fn count_rats(names: &Vec<String>) -> (n: usize)
    ensures
        n == spec_count_rats(names@),
{
    let mut n: usize = 0;
    let mut i: usize = 0;
    assert(names@.take(0) =~= Seq::<String>::empty());
    while i < names.len()
        invariant
            i <= names@.len(),
            n <= i,
            n == spec_count_rats(names@.take(i as int)),
        decreases names@.len() - i,
    {
        assert(names@.take(i + 1).drop_last() =~= names@.take(i as int));
        if is_rat(names[i].as_str()) {
            n = n + 1;
        }
        i = i + 1;
    }
    assert(names@.take(names@.len() as int) =~= names@);
    n
}

} // verus!
