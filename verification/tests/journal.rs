use libsoul::journal::{count_rats, empty_slots, is_rat, next_offer, Offer};
use libsoul::Soul;

#[test]
fn fresh_player_is_offered_the_sewer_cleanse() {
    let mut soul = Soul::new();
    assert_eq!(empty_slots(&soul), 1);
    assert_eq!(next_offer(&soul), Offer::Quest(1));
    assert!(soul.add_quest(1).is_ok());
    assert_eq!(empty_slots(&soul), 0);
    assert_eq!(next_offer(&soul), Offer::SlotsFull);
}

#[test]
fn offers_follow_the_level() {
    let mut soul = Soul::new();
    soul.level = 42;
    soul.quests[0] = 1;
    assert_eq!(next_offer(&soul), Offer::Quest(2));
    soul.quests[1] = 2;
    assert_eq!(next_offer(&soul), Offer::Quest(3));
    soul.quests[2] = 3;
    assert_eq!(next_offer(&soul), Offer::Quest(4));
    soul.quests[3] = 4;
    assert_eq!(next_offer(&soul), Offer::Quest(5));
    soul.quests[4] = 5;
    assert_eq!(next_offer(&soul), Offer::NoneAvailable);
    assert_eq!(empty_slots(&soul), 3);

    // At level 6 two slots are open: the crack, from level 2, comes first.
    let mut soul = Soul::new();
    soul.level = 6;
    soul.quests[1] = 1;
    assert_eq!(next_offer(&soul), Offer::Quest(2));
    // The sewer cleanse comes first whatever the level.
    soul.quests[1] = 5;
    assert_eq!(next_offer(&soul), Offer::Quest(1));
}

#[test]
fn every_offer_can_be_added() {
    for level in 0..=42u32 {
        let mut soul = Soul::new();
        soul.level = level;
        let mut taken = 0;
        while let Offer::Quest(id) = next_offer(&soul) {
            assert!(soul.add_quest(id).is_ok(), "level {} quest {}", level, id);
            taken += 1;
            assert!(taken <= 8);
        }
        assert!(taken >= 1);
    }
}

#[test]
fn rats_are_counted_by_name() {
    assert!(is_rat("big.rat"));
    assert!(is_rat(".rat"));
    assert!(!is_rat("rat"));
    assert!(!is_rat("big.rat.bak"));
    assert!(!is_rat("big.RAT"));
    assert!(!is_rat(""));
    assert!(is_rat("r\u{e9}sum\u{e9}.rat"));
    let names: Vec<String> =
        ["a.rat", "b.txt", ".rat", "rat", "c.rat "].iter().map(|n| n.to_string()).collect();
    assert_eq!(count_rats(&names), 2);
    assert_eq!(count_rats(&Vec::new()), 0);
}
