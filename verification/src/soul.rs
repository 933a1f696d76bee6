//! The in-memory record, its derived values and its validity rule.

use crate::error::SoulError;
use vstd::arithmetic::div_mod::{lemma_basic_div, lemma_div_denominator};
use vstd::arithmetic::power2::{
    lemma2_to64, lemma2_to64_rest, lemma_pow2_pos, lemma_pow2_strictly_increases,
    lemma_pow2_unfold, pow2,
};
use vstd::prelude::*;

verus! {

/// The four bytes that open every soul file: `SHC!`.
pub const MAGIC: [u8; 4] = [0x53, 0x48, 0x43, 0x21];

/// The one supported format version.
pub const VERSION: u16 = 1;

/// Length of the fixed header; the bytes after it encode the hit points.
pub const HEADER_SIZE: u64 = 62;

/// Highest level a valid record may hold.
pub const MAX_LEVEL: u32 = 42;

/// Number of quest slots in a record.
pub const QUEST_SLOTS: usize = 8;

/// A player's progression record.
#[derive(Debug, Clone, Copy)]
pub struct Soul {
    /// Player level, 0 to 42 in a valid record.
    pub level: u32,
    /// Experience points.
    pub xp: u64,
    /// Quest ids by slot; 0 marks an empty slot.
    pub quests: [u32; 8],
    /// Hit points, at most `max_hp(level)` in a valid record.
    pub hp: u32,
}

/// The mathematical value of a record: its fields, with the slots as a
/// sequence of length 8.
#[verifier::ext_equal]
pub struct SoulView {
    pub level: u32,
    pub xp: u64,
    pub quests: Seq<u32>,
    pub hp: u32,
}

impl View for Soul {
    type V = SoulView;

    open spec fn view(&self) -> SoulView {
        SoulView { level: self.level, xp: self.xp, quests: self.quests@, hp: self.hp }
    }
}

/// Hit-point ceiling at a level: 100, and 20 more per level.
pub open spec fn spec_max_hp(level: int) -> int {
    100 + level * 20
}

/// Number of unlocked quest slots at a level: one, one more every six
/// levels, eight at most.
pub open spec fn spec_unlocked_slots(level: int) -> int {
    if 1 + level / 6 < 8 {
        1 + level / 6
    } else {
        8
    }
}

/// Experience needed to leave a level: the curve `1000 * 2^level`, with the
/// value that double-precision arithmetic, truncated toward zero, gives it
/// on every 32-bit level. Up to level 54 the product is exact. Above that it
/// no longer fits in 64 bits and is pinned to the largest 64-bit value. The
/// exponent is a signed 32-bit number, so a level from 2^31 on stands for the
/// negative exponent `level - 2^32`, and the result is 1000 divided by a
/// power of two, rounded down.
pub open spec fn spec_xp_for_next_level(level: int) -> int {
    if level <= 54 {
        1000 * (pow2(level as nat) as int)
    } else if level < 0x8000_0000 {
        u64::MAX as int
    } else {
        1000int / (pow2((0x1_0000_0000 - level) as nat) as int)
    }
}

impl SoulView {
    /// The freshly created record: level 0, no experience, no quests, full
    /// hit points.
    pub open spec fn fresh() -> SoulView {
        SoulView { level: 0, xp: 0, quests: Seq::new(8, |i: int| 0u32), hp: 100 }
    }

    /// Number of quest slots this record may use.
    pub open spec fn unlocked_slots(self) -> int {
        spec_unlocked_slots(self.level as int)
    }

    /// Every record has exactly eight slots.
    pub open spec fn well_formed(self) -> bool {
        self.quests.len() == 8
    }

    /// The validity rule: the level is at most 42 and the hit points do not
    /// exceed the ceiling of the level.
    pub open spec fn valid(self) -> bool {
        self.level <= MAX_LEVEL && self.hp <= spec_max_hp(self.level as int)
    }

    /// What validation answers: the level is judged first, then the hit
    /// points.
    pub open spec fn validate(self) -> Result<(), SoulError> {
        if self.level > MAX_LEVEL {
            Err(SoulError::InvalidLevel(self.level))
        } else if self.hp > spec_max_hp(self.level as int) {
            Err(
                SoulError::InvalidHP {
                    hp: self.hp,
                    max: spec_max_hp(self.level as int) as u32,
                },
            )
        } else {
            Ok(())
        }
    }
}

impl Soul {
    /// A fresh record: level 0, no experience, all slots empty, hit points
    /// at the ceiling of level 0.
    pub fn new() -> (s: Soul)
        ensures
            s@ == SoulView::fresh(),
    {
        let s = Soul { level: 0, xp: 0, quests: [0; 8], hp: Self::max_hp(0) };
        assert(s@.quests =~= SoulView::fresh().quests);
        s
    }

    /// Hit-point ceiling at `level`. The level must be small enough for the
    /// ceiling to fit in 32 bits, which every level up to 42 is.
    pub fn max_hp(level: u32) -> (r: u32)
        requires
            spec_max_hp(level as int) <= u32::MAX,
        ensures
            r == spec_max_hp(level as int),
    {
        100 + (level * 20)
    }

    /// Hit-point ceiling at this record's level.
    pub fn max_hp_for_level(&self) -> (r: u32)
        requires
            spec_max_hp(self.level as int) <= u32::MAX,
        ensures
            r == spec_max_hp(self.level as int),
    {
        Self::max_hp(self.level)
    }

    /// Experience needed to reach the next level from this record's level.
    pub fn xp_for_next_level(&self) -> (r: u64)
        ensures
            r == spec_xp_for_next_level(self.level as int),
    {
        let level = self.level;
        if level <= 54 {
            let mut x: u64 = 1000;
            let mut i: u32 = 0;
            proof {
                lemma2_to64();
            }
            while i < level
                invariant
                    i <= level <= 54,
                    x == 1000 * pow2(i as nat),
                decreases level - i,
            {
                proof {
                    lemma_pow2_unfold((i + 1) as nat);
                    lemma2_to64_rest();
                    if i + 1 < 54 {
                        lemma_pow2_strictly_increases((i + 1) as nat, 54);
                    }
                }
                x = x * 2;
                i = i + 1;
            }
            x
        } else if level < 0x8000_0000 {
            u64::MAX
        } else {
            let k: u32 = (u32::MAX - level) + 1;
            if k >= 10 {
                proof {
                    lemma2_to64();
                    if k > 10 {
                        lemma_pow2_strictly_increases(10, k as nat);
                    }
                    lemma_basic_div(1000, pow2(k as nat) as int);
                }
                0
            } else {
                let mut x: u64 = 1000;
                let mut i: u32 = 0;
                proof {
                    lemma2_to64();
                }
                while i < k
                    invariant
                        i <= k < 10,
                        x == 1000int / (pow2(i as nat) as int),
                    decreases k - i,
                {
                    proof {
                        lemma_pow2_unfold((i + 1) as nat);
                        lemma_pow2_pos(i as nat);
                        lemma_div_denominator(1000, pow2(i as nat) as int, 2);
                        assert(pow2(i as nat) * 2 == pow2((i + 1) as nat));
                    }
                    x = x / 2;
                    i = i + 1;
                }
                x
            }
        }
    }

    /// Number of quest slots unlocked at this record's level, from 1 to 8.
    pub fn unlocked_quest_slots(&self) -> (n: usize)
        ensures
            n == self@.unlocked_slots(),
            1 <= n <= 8,
    {
        let slots: u32 = 1 + self.level / 6;
        if slots < 8 {
            slots as usize
        } else {
            QUEST_SLOTS
        }
    }

    /// Whether the slot at index `slot` is unlocked.
    pub fn is_quest_slot_unlocked(&self, slot: usize) -> (b: bool)
        ensures
            b == (slot < self@.unlocked_slots()),
    {
        slot < self.unlocked_quest_slots()
    }

    /// Checks the validity rule. The record is only read.
    pub fn validate(&self) -> (r: Result<(), SoulError>)
        ensures
            r == self@.validate(),
            r is Ok <==> self@.valid(),
    {
        if self.level > MAX_LEVEL {
            return Err(SoulError::InvalidLevel(self.level));
        }
        let max_hp = self.max_hp_for_level();
        if self.hp > max_hp {
            return Err(SoulError::InvalidHP { hp: self.hp, max: max_hp });
        }
        Ok(())
    }
}

impl Default for Soul {
    fn default() -> (s: Soul)
        ensures
            s@ == SoulView::fresh(),
    {
        Soul::new()
    }
}

/// The hit-point ceiling never falls as the level rises.
pub proof fn lemma_max_hp_monotonic(a: int, b: int)
    requires
        a <= b,
    ensures
        spec_max_hp(a) <= spec_max_hp(b),
{
}

/// The number of unlocked slots never falls as the level rises, and lies
/// between 1 and 8.
pub proof fn lemma_unlocked_slots_monotonic(a: int, b: int)
    requires
        0 <= a <= b,
    ensures
        1 <= spec_unlocked_slots(a) <= spec_unlocked_slots(b) <= 8,
{
}

/// Validation succeeds exactly on the valid records.
pub proof fn lemma_validate_valid(v: SoulView)
    ensures
        v.validate() is Ok <==> v.valid(),
        v.level > MAX_LEVEL ==> v.validate() == Err::<(), SoulError>(
            SoulError::InvalidLevel(v.level),
        ),
        v.level <= MAX_LEVEL && v.hp > spec_max_hp(v.level as int) ==> v.validate() == Err::<
            (),
            SoulError,
        >(SoulError::InvalidHP { hp: v.hp, max: spec_max_hp(v.level as int) as u32 }),
{
}

/// A fresh record is valid, holds no quest, and has one unlocked slot.
pub proof fn lemma_fresh()
    ensures
        SoulView::fresh().well_formed(),
        SoulView::fresh().valid(),
        SoulView::fresh().unlocked_slots() == 1,
        forall|i: int| 0 <= i < 8 ==> SoulView::fresh().quests[i] == 0,
{
}

} // verus!
