use libsoul::quest_data::{load_quests, parse_block, parse_fields, set_field, QuestData};

const QUESTS: &str = "# Quest texts
# One block for each quest.

%% QUEST 1
id=1
name=The Sewer Cleanse
min_level=0
reward_xp=1000
offer_title=The Sewer Cleanse
offer_narrative=\"\"\"
A terrible stench rises from the sewers beneath the city.
Think of it as garbage collection: somebody has to do it.
\"\"\"
offer_objective=Eliminate all rats in /sewer
offer_reward=1000 XP
journal_description=\"\"\"
The sewers are infested with rats. Be the garbage collector.
\"\"\"
progress_format=Progress: {} rats remaining
completion_message=The sewers are clean.

%% QUEST 2
id=2
name=The Crack
min_level=2
reward_xp=2000
offer_title=The Crack
offer_narrative=\"\"\"
The sewers hold secrets that only reveal themselves
to those who know where to look.
\"\"\"
offer_objective=Discover the hidden .crack/ directory in /sewer
offer_reward=2000 XP
journal_description=Explore the hidden areas of the sewer.
journal_objective=Discover the .crack/ directory
journal_reward=2000 XP

%% QUEST 3
id=3
name=The Locked Door
min_level=3
reward_xp=3000
offer_title=The Locked Door
offer_narrative=Beyond the crack in the wall lies a locked door.
offer_objective=Create a key and unlock the door in .crack/
offer_reward=3000 XP
journal_description=A locked door blocks your path in /sewer/.crack/

%% QUEST 4
id=4
name=Portal Home
min_level=5
reward_xp=8000
offer_title=Portal Home
offer_narrative=Create a shortcut from your home directory.
offer_objective=Create a symlink from /home to under_nix
offer_reward=8000 XP
journal_description=Create a symlink from /home to under_nix for quick access.

%% QUEST 5
id=5
name=Navigate the Maze
min_level=6
reward_xp=13000
offer_title=Navigate the Maze
offer_narrative=Under-Nix is a twisted labyrinth of symbolic links.
offer_objective=Find the treasure in the symlink maze
offer_reward=13000 XP
journal_description=The symlink maze in under_nix hides a treasure.
";

#[test]
fn test_quest_1_loads() {
    let quests = load_quests(QUESTS);

    // Quest 1 should exist
    let quest = quests.get(&1).expect("Quest 1 not found in quest data");

    // Verify basic fields
    assert_eq!(quest.id, 1);
    assert_eq!(quest.name, "The Sewer Cleanse");
    assert_eq!(quest.min_level, 0);
    assert_eq!(quest.reward_xp, 1000);

    // Verify offer fields
    assert_eq!(quest.offer_title, "The Sewer Cleanse");
    assert_eq!(quest.offer_objective, "Eliminate all rats in /sewer");
    assert_eq!(quest.offer_reward, "1000 XP");
    assert!(quest.offer_narrative.contains("garbage collection"));

    // Verify journal fields
    assert!(quest.journal_description.contains("garbage collector"));
}

#[test]
fn test_all_quests_load() {
    let quests = load_quests(QUESTS);

    // Should have quests 1-5
    assert!(quests.contains_key(&1), "Quest 1 missing");
    assert!(quests.contains_key(&2), "Quest 2 missing");
    assert!(quests.contains_key(&3), "Quest 3 missing");
    assert!(quests.contains_key(&4), "Quest 4 missing");
    assert!(quests.contains_key(&5), "Quest 5 missing");

    assert_eq!(quests.len(), 5, "Expected exactly 5 quests");
}

#[test]
fn multi_line_values_are_trimmed_and_keep_their_lines() {
    let quests = load_quests(QUESTS);
    let quest = quests.get(&1).unwrap();
    assert_eq!(
        quest.offer_narrative,
        "A terrible stench rises from the sewers beneath the city.\nThink of it as garbage collection: somebody has to do it."
    );
    assert_eq!(
        quest.journal_description,
        "The sewers are infested with rats. Be the garbage collector."
    );
    assert_eq!(quest.progress_format.as_deref(), Some("Progress: {} rats remaining"));
    assert_eq!(quest.completion_message.as_deref(), Some("The sewers are clean."));
    assert_eq!(quest.journal_objective, None);
    assert_eq!(quest.journal_reward, None);

    let quest = quests.get(&2).unwrap();
    assert_eq!(quest.min_level, 2);
    assert_eq!(quest.reward_xp, 2000);
    assert_eq!(quest.journal_objective.as_deref(), Some("Discover the .crack/ directory"));
    assert_eq!(quest.journal_reward.as_deref(), Some("2000 XP"));
    assert_eq!(quest.progress_format, None);

    let quest = quests.get(&5).unwrap();
    assert_eq!(quest.name, "Navigate the Maze");
    assert_eq!(quest.journal_description, "The symlink maze in under_nix hides a treasure.");
}

#[test]
fn empty_and_comment_only_texts_hold_no_quest() {
    assert!(load_quests("").is_empty());
    assert!(load_quests("   \n\n").is_empty());
    assert!(load_quests("# nothing here\nid=4\n").is_empty());
    assert!(load_quests("%% QUEST%% QUEST%% QUEST").is_empty());
}

#[test]
fn block_without_an_id_is_dropped() {
    let quests = load_quests("%% QUEST 1\nname=No id\n%% QUEST 2\nid=0\nname=Zero\n%% QUEST 3\nid=x\nname=Bad\n%% QUEST 4\nid=4\nname=Good\n");
    assert_eq!(quests.len(), 1);
    assert_eq!(quests.get(&4).unwrap().name, "Good");
}

#[test]
fn later_block_replaces_an_earlier_one_of_the_same_id() {
    let quests = load_quests("%% QUEST 1\nid=7\nname=First\nreward_xp=5\n%% QUEST 2\nid=7\nname=Second\n");
    assert_eq!(quests.len(), 1);
    let quest = quests.get(&7).unwrap();
    assert_eq!(quest.name, "Second");
    assert_eq!(quest.reward_xp, 0);
}

#[test]
fn text_before_the_first_mark_is_a_block_too() {
    let quests = load_quests("id=9\nname=Early\n%% QUEST 2\nid=2\nname=Late");
    assert_eq!(quests.len(), 2);
    assert_eq!(quests.get(&9).unwrap().name, "Early");
    assert_eq!(quests.get(&2).unwrap().name, "Late");
}

#[test]
fn first_line_of_digits_is_skipped() {
    let quest = parse_block(" 12 \nid=3\nname=n").unwrap();
    assert_eq!(quest.id, 3);
    assert_eq!(quest.name, "n");
    // A first line with anything else is read as a field line.
    let quest = parse_block("id=3\nname=n").unwrap();
    assert_eq!(quest.id, 3);
    assert_eq!(quest.name, "n");
    // A block of one line has no first line to skip.
    assert!(parse_block("12").is_none());
    let quest = parse_block("id=12").unwrap();
    assert_eq!(quest.id, 12);
    assert!(parse_block("  # id=1").is_none());
    assert!(parse_block("").is_none());
    assert!(parse_block(" \n ").is_none());
}

#[test]
fn numbers_that_do_not_parse_count_as_zero() {
    let quest = parse_fields("id=+5\nmin_level=-1\nreward_xp=4294967296\n");
    assert_eq!(quest.id, 5);
    assert_eq!(quest.min_level, 0);
    assert_eq!(quest.reward_xp, 0);
    let quest = parse_fields("id=4294967295\nmin_level=007\nreward_xp=1 000");
    assert_eq!(quest.id, u32::MAX);
    assert_eq!(quest.min_level, 7);
    assert_eq!(quest.reward_xp, 0);
}

#[test]
fn keys_and_values_are_trimmed() {
    let quest = parse_fields("  name  =   The name  \n\n\n offer_title\t=\tTitle\t\nunknown=ignored\n");
    assert_eq!(quest.name, "The name");
    assert_eq!(quest.offer_title, "Title");
    assert_eq!(quest.id, 0);
}

#[test]
fn last_field_needs_no_line_end() {
    let quest = parse_fields("id=1\nname=Last");
    assert_eq!(quest.name, "Last");
    let quest = parse_fields("id=1\nname=   ");
    assert_eq!(quest.name, "");
}

#[test]
fn one_or_two_quotes_after_the_equals_sign_are_dropped() {
    let quest = parse_fields("name=\"quoted\"\noffer_title=\"\"two\noffer_reward= \"x\n");
    assert_eq!(quest.name, "quoted\"");
    assert_eq!(quest.offer_title, "two");
    assert_eq!(quest.offer_reward, "x");
}

#[test]
fn quotes_are_looked_for_behind_at_most_two_spaces() {
    let quest = parse_fields("name=  \"\"\"a\nb\"\"\"\noffer_title=   \"\"\"c\"\"\"\n");
    assert_eq!(quest.name, "a\nb");
    // Three spaces are skipped, and then no quote is taken off.
    assert_eq!(quest.offer_title, "\"\"\"c\"\"\"");
}

#[test]
fn two_quotes_inside_a_multi_line_value_stay() {
    let quest = parse_fields("name=\"\"\"say \"\"hi\"\" now\"\"\"\noffer_title=\"\"\"a \"b\" c\"\"\"");
    assert_eq!(quest.name, "say \"\"hi\"\" now");
    assert_eq!(quest.offer_title, "a \"b\" c");
}

#[test]
fn multi_line_value_may_be_empty_or_open() {
    let quest = parse_fields("name=x\nname=\"\"\"\"\"\"\nid=2");
    assert_eq!(quest.name, "");
    assert_eq!(quest.id, 2);
    // A value that is never closed runs to the end of the block.
    let quest = parse_fields("id=2\nname=\"\"\"open\nid=3");
    assert_eq!(quest.id, 2);
    assert_eq!(quest.name, "open\nid=3");
}

#[test]
fn equals_sign_in_a_value_starts_a_new_key() {
    let quest = parse_fields("name=a=b\noffer_title=t\n");
    assert_eq!(quest.name, "");
    assert_eq!(quest.offer_title, "t");
    // Inside a multi-line value it is text.
    let quest = parse_fields("name=\"\"\"a=b\"\"\"\n");
    assert_eq!(quest.name, "a=b");
}

#[test]
fn empty_value_is_not_stored_by_a_line_end() {
    // The line end after `name=` is skipped as white space, so the next line
    // is gathered as the value until its own `=`.
    let quest = parse_fields("name=\nid=1\n");
    assert_eq!(quest.name, "");
    assert_eq!(quest.id, 1);
}

#[test]
fn set_field_by_key() {
    let mut quest = QuestData::blank();
    set_field(&mut quest, "id", "12");
    set_field(&mut quest, "name", "N");
    set_field(&mut quest, "min_level", "3");
    set_field(&mut quest, "reward_xp", "400");
    set_field(&mut quest, "offer_title", "OT");
    set_field(&mut quest, "offer_narrative", "ON");
    set_field(&mut quest, "offer_objective", "OO");
    set_field(&mut quest, "offer_reward", "OR");
    set_field(&mut quest, "journal_description", "JD");
    assert_eq!(quest.journal_objective, None);
    set_field(&mut quest, "journal_objective", "JO");
    set_field(&mut quest, "journal_reward", "JR");
    set_field(&mut quest, "progress_format", "PF");
    set_field(&mut quest, "completion_message", "CM");
    set_field(&mut quest, "Id", "99");
    set_field(&mut quest, "", "99");
    set_field(&mut quest, "id ", "99");
    assert_eq!(quest.id, 12);
    assert_eq!(quest.name, "N");
    assert_eq!(quest.min_level, 3);
    assert_eq!(quest.reward_xp, 400);
    assert_eq!(quest.offer_title, "OT");
    assert_eq!(quest.offer_narrative, "ON");
    assert_eq!(quest.offer_objective, "OO");
    assert_eq!(quest.offer_reward, "OR");
    assert_eq!(quest.journal_description, "JD");
    assert_eq!(quest.journal_objective.as_deref(), Some("JO"));
    assert_eq!(quest.journal_reward.as_deref(), Some("JR"));
    assert_eq!(quest.progress_format.as_deref(), Some("PF"));
    assert_eq!(quest.completion_message.as_deref(), Some("CM"));
    set_field(&mut quest, "id", "twelve");
    assert_eq!(quest.id, 0);
}
