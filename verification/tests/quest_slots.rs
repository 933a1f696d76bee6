use libsoul::{Soul, SoulError};

#[test]
fn adding_quest_zero_always_fails() {
    let mut soul = Soul::new();
    assert!(matches!(soul.add_quest(0), Err(SoulError::InvalidQuest)));
    assert_eq!(soul, Soul::new());

    soul.level = 42;
    soul.quests = [1, 2, 3, 4, 5, 6, 7, 8];
    let before = soul;
    assert!(matches!(soul.add_quest(0), Err(SoulError::InvalidQuest)));
    assert_eq!(soul, before);
}

#[test]
fn adding_a_quest_twice_fails_the_second_time() {
    let mut soul = Soul::new();
    soul.level = 12;
    assert!(matches!(soul.add_quest(9), Ok(0)));
    let after_first = soul;
    assert!(matches!(soul.add_quest(9), Err(SoulError::QuestAlreadyActive)));
    assert_eq!(soul, after_first);
}

#[test]
fn adding_to_full_slots_fails() {
    let mut soul = Soul::new();
    soul.level = 12;
    assert!(matches!(soul.add_quest(10), Ok(0)));
    assert!(matches!(soul.add_quest(20), Ok(1)));
    assert!(matches!(soul.add_quest(30), Ok(2)));
    let full = soul;
    assert!(matches!(soul.add_quest(40), Err(SoulError::NoQuestSlots)));
    assert_eq!(soul, full);
    assert_eq!(soul.quests, [10, 20, 30, 0, 0, 0, 0, 0]);
    // When the slots are full and the id is new, a second try is refused alike.
    assert!(matches!(soul.add_quest(40), Err(SoulError::NoQuestSlots)));
}

#[test]
fn locked_slots_are_never_written() {
    let mut soul = Soul::new();
    soul.quests = [5, 0, 0, 0, 0, 0, 0, 0];
    assert!(matches!(soul.add_quest(6), Err(SoulError::NoQuestSlots)));
    assert_eq!(soul.quests, [5, 0, 0, 0, 0, 0, 0, 0]);
}

#[test]
fn first_empty_unlocked_slot_is_taken() {
    let mut soul = Soul::new();
    soul.level = 18;
    soul.quests = [5, 0, 7, 0, 0, 0, 0, 0];
    assert!(matches!(soul.add_quest(6), Ok(1)));
    assert_eq!(soul.quests, [5, 6, 7, 0, 0, 0, 0, 0]);
    assert!(matches!(soul.add_quest(8), Ok(3)));
    assert_eq!(soul.quests, [5, 6, 7, 8, 0, 0, 0, 0]);
    assert_eq!(soul.level, 18);
    assert_eq!(soul.hp, 100);
    assert_eq!(soul.xp, 0);
}

#[test]
fn quests_in_locked_slots_are_not_active() {
    let mut soul = Soul::new();
    soul.quests = [0, 9, 0, 0, 0, 0, 0, 9];
    assert!(!soul.has_quest(9));
    assert_eq!(soul.active_quests(), Vec::<u32>::new());
    // The id sits in a locked slot only, so it may still be added.
    assert!(matches!(soul.add_quest(9), Ok(0)));
    assert!(soul.has_quest(9));
    assert_eq!(soul.active_quests(), vec![9]);
}

#[test]
fn active_quests_keep_slot_order() {
    let mut soul = Soul::new();
    soul.level = 42;
    soul.quests = [4, 0, 2, 0, 9, 1, 0, 7];
    assert_eq!(soul.active_quests(), vec![4, 2, 9, 1, 7]);
    soul.level = 24;
    assert_eq!(soul.active_quests(), vec![4, 2, 9]);
    assert!(!soul.has_quest(0));
    assert!(soul.has_quest(9));
    assert!(!soul.has_quest(1));
}

#[test]
fn removing_an_absent_quest_changes_nothing() {
    let mut soul = Soul::new();
    soul.level = 42;
    soul.quests = [1, 2, 3, 4, 5, 6, 7, 8];
    let before = soul;
    assert!(!soul.remove_quest(9));
    assert_eq!(soul, before);
}

#[test]
fn removing_clears_every_matching_slot() {
    let mut soul = Soul::new();
    soul.level = 6;
    soul.quests = [3, 4, 3, 0, 0, 3, 0, 3];
    assert!(soul.remove_quest(3));
    assert_eq!(soul.quests, [0, 4, 0, 0, 0, 0, 0, 0]);
    assert!(!soul.has_quest(3));
    assert!(!soul.remove_quest(3));
    assert_eq!(soul.level, 6);
}

#[test]
fn removing_zero_reports_an_empty_slot() {
    let mut soul = Soul::new();
    assert!(soul.remove_quest(0));
    assert_eq!(soul, Soul::new());
    soul.level = 42;
    soul.quests = [1, 2, 3, 4, 5, 6, 7, 8];
    assert!(!soul.remove_quest(0));
}

#[test]
fn add_then_encode_then_decode() {
    let mut soul = Soul::new();
    assert!(matches!(soul.add_quest(7), Ok(0)));
    assert!(matches!(soul.add_quest(7), Err(SoulError::QuestAlreadyActive)));
    let bytes = soul.encode().unwrap();
    let back = Soul::decode(&bytes).unwrap();
    assert_eq!(back.active_quests(), vec![7]);
}
