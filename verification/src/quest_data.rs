//! Quest descriptions and the text format they are written in.
//!
//! A quest text is a run of blocks, each introduced by the words `%% QUEST`.
//! A block holds `key=value` lines; a value may also stand between two
//! `"""` marks and then run over several lines. A block counts when it gives
//! its quest an id above 0.

use crate::text::{
    char_is_ascii_digit, char_is_whitespace, chars_of, find_from, find_in, is_ascii_digit,
    is_whitespace, parse_u32, spec_parse_u32, split, split_text, str_eq, texts, trim, trim_range,
};
use std::collections::HashMap;
use vstd::prelude::*;
use vstd::string::*;

verus! {

/// The description of one quest.
#[derive(Debug, Clone)]
pub struct QuestData {
    pub id: u32,
    pub name: String,
    pub min_level: u32,
    pub reward_xp: u32,
    /// Shown when the quest is offered.
    pub offer_title: String,
    pub offer_narrative: String,
    pub offer_objective: String,
    pub offer_reward: String,
    /// Shown in the journal while the quest is active.
    pub journal_description: String,
    pub journal_objective: Option<String>,
    pub journal_reward: Option<String>,
    pub progress_format: Option<String>,
    pub completion_message: Option<String>,
}

/// The mathematical value of a quest description: its texts as sequences of
/// characters.
#[verifier::ext_equal]
pub struct QuestDataView {
    pub id: u32,
    pub name: Seq<char>,
    pub min_level: u32,
    pub reward_xp: u32,
    pub offer_title: Seq<char>,
    pub offer_narrative: Seq<char>,
    pub offer_objective: Seq<char>,
    pub offer_reward: Seq<char>,
    pub journal_description: Seq<char>,
    pub journal_objective: Option<Seq<char>>,
    pub journal_reward: Option<Seq<char>>,
    pub progress_format: Option<Seq<char>>,
    pub completion_message: Option<Seq<char>>,
}

/// An optional text by its characters.
pub open spec fn text_view(t: Option<String>) -> Option<Seq<char>> {
    match t {
        Some(s) => Some(s@),
        None => None,
    }
}

impl View for QuestData {
    type V = QuestDataView;

    open spec fn view(&self) -> QuestDataView {
        QuestDataView {
            id: self.id,
            name: self.name@,
            min_level: self.min_level,
            reward_xp: self.reward_xp,
            offer_title: self.offer_title@,
            offer_narrative: self.offer_narrative@,
            offer_objective: self.offer_objective@,
            offer_reward: self.offer_reward@,
            journal_description: self.journal_description@,
            journal_objective: text_view(self.journal_objective),
            journal_reward: text_view(self.journal_reward),
            progress_format: text_view(self.progress_format),
            completion_message: text_view(self.completion_message),
        }
    }
}

/// The number a text spells, or 0 if it spells none.
pub open spec fn number_or_zero(value: Seq<char>) -> u32 {
    match spec_parse_u32(value) {
        Some(n) => n,
        None => 0,
    }
}

impl QuestDataView {
    /// The description that every block starts from: id 0, empty texts, no
    /// optional text.
    pub open spec fn blank() -> QuestDataView {
        QuestDataView {
            id: 0,
            name: Seq::empty(),
            min_level: 0,
            reward_xp: 0,
            offer_title: Seq::empty(),
            offer_narrative: Seq::empty(),
            offer_objective: Seq::empty(),
            offer_reward: Seq::empty(),
            journal_description: Seq::empty(),
            journal_objective: None,
            journal_reward: None,
            progress_format: None,
            completion_message: None,
        }
    }

    /// The description with the field named `key` set to `value`. A number
    /// field takes the number that the value spells, and 0 where it spells
    /// none. An unknown key changes nothing.
    pub open spec fn set_field(self, key: Seq<char>, value: Seq<char>) -> QuestDataView {
        if key == "id"@ {
            QuestDataView { id: number_or_zero(value), ..self }
        } else if key == "name"@ {
            QuestDataView { name: value, ..self }
        } else if key == "min_level"@ {
            QuestDataView { min_level: number_or_zero(value), ..self }
        } else if key == "reward_xp"@ {
            QuestDataView { reward_xp: number_or_zero(value), ..self }
        } else if key == "offer_title"@ {
            QuestDataView { offer_title: value, ..self }
        } else if key == "offer_narrative"@ {
            QuestDataView { offer_narrative: value, ..self }
        } else if key == "offer_objective"@ {
            QuestDataView { offer_objective: value, ..self }
        } else if key == "offer_reward"@ {
            QuestDataView { offer_reward: value, ..self }
        } else if key == "journal_description"@ {
            QuestDataView { journal_description: value, ..self }
        } else if key == "journal_objective"@ {
            QuestDataView { journal_objective: Some(value), ..self }
        } else if key == "journal_reward"@ {
            QuestDataView { journal_reward: Some(value), ..self }
        } else if key == "progress_format"@ {
            QuestDataView { progress_format: Some(value), ..self }
        } else if key == "completion_message"@ {
            QuestDataView { completion_message: Some(value), ..self }
        } else {
            self
        }
    }
}

/// What the reader of a block holds between two characters: the description
/// so far, the key in hand, the value gathered since, and whether it stands
/// inside a `"""` value.
#[verifier::ext_equal]
pub struct FieldState {
    pub quest: QuestDataView,
    pub key: Seq<char>,
    pub value: Seq<char>,
    pub multiline: bool,
}

/// How many of the three characters from `at` on are skipped as white space
/// after a `=`: the white space at the start of them.
pub open spec fn skipped_space(s: Seq<char>, at: int) -> int {
    if !(at < s.len() && is_whitespace(s[at])) {
        0
    } else if !(at + 1 < s.len() && is_whitespace(s[at + 1])) {
        1
    } else if !(at + 2 < s.len() && is_whitespace(s[at + 2])) {
        2
    } else {
        3
    }
}

/// How many `"` stand at `at`, up to three.
pub open spec fn opening_quotes(s: Seq<char>, at: int) -> int {
    if !(at < s.len() && s[at] == '"') {
        0
    } else if !(at + 1 < s.len() && s[at + 1] == '"') {
        1
    } else if !(at + 2 < s.len() && s[at + 2] == '"') {
        2
    } else {
        3
    }
}

impl FieldState {
    /// The state at the start of a block.
    pub open spec fn start() -> FieldState {
        FieldState {
            quest: QuestDataView::blank(),
            key: Seq::empty(),
            value: Seq::empty(),
            multiline: false,
        }
    }

    /// The state after the value in hand, trimmed, has been stored under the
    /// key in hand.
    pub open spec fn stored(self) -> FieldState {
        FieldState {
            quest: self.quest.set_field(self.key, trim(self.value)),
            key: Seq::empty(),
            value: Seq::empty(),
            multiline: false,
        }
    }

    /// Whether a line end or the end of the block stores a field: there is a
    /// key, and the value is more than white space.
    pub open spec fn holds_field(self) -> bool {
        self.key.len() > 0 && trim(self.value).len() > 0
    }

    /// The state with `c` added to the value.
    pub open spec fn gathered(self, c: char) -> FieldState {
        FieldState { value: self.value.push(c), ..self }
    }

    /// One step of reading `s` at `at`: the state afterwards and the position
    /// to go on from.
    ///
    /// Inside a `"""` value, `"""` ends the value and stores it; two `"`
    /// alone are part of the value, as is every other character. Outside,
    /// `=` makes the text gathered so far, trimmed, the key; up to three
    /// white-space characters after it are skipped, and if fewer than three
    /// were, up to three `"` are taken off: three of them open a `"""` value,
    /// one or two are dropped. A line end stores the field in hand, if there
    /// is one. Every other character is gathered.
    pub open spec fn step(self, s: Seq<char>, at: int) -> (FieldState, int) {
        let c = s[at];
        if self.multiline {
            if c == '"' && opening_quotes(s, at) == 3 {
                (self.stored(), at + 3)
            } else if c == '"' && opening_quotes(s, at) == 2 {
                (self.gathered('"').gathered('"'), at + 2)
            } else {
                (self.gathered(c), at + 1)
            }
        } else if c == '=' {
            let space = skipped_space(s, at + 1);
            let quotes = if space < 3 {
                opening_quotes(s, at + 1 + space)
            } else {
                0
            };
            (
                FieldState {
                    quest: self.quest,
                    key: trim(self.value),
                    value: Seq::empty(),
                    multiline: quotes == 3,
                },
                at + 1 + space + quotes,
            )
        } else if c == '\n' && self.holds_field() {
            (self.stored(), at + 1)
        } else {
            (self.gathered(c), at + 1)
        }
    }

    /// The description at the end of a block: the field in hand is stored,
    /// if there is one.
    pub open spec fn finish(self) -> QuestDataView {
        if self.holds_field() {
            self.stored().quest
        } else {
            self.quest
        }
    }
}

/// The description that reading `s` from `at` on, in state `st`, ends with.
pub open spec fn read_fields(s: Seq<char>, at: int, st: FieldState) -> QuestDataView
    decreases s.len() - at,
{
    if at < 0 || at >= s.len() {
        st.finish()
    } else {
        let next = st.step(s, at);
        if next.1 <= at {
            st.finish()
        } else {
            read_fields(s, next.1, next.0)
        }
    }
}

/// The description that the fields of a block body give.
pub open spec fn spec_parse_fields(body: Seq<char>) -> QuestDataView {
    read_fields(body, 0, FieldState::start())
}

/// The number that `value` spells, or 0.
fn number_of(value: &str) -> (n: u32)
    ensures
        n == number_or_zero(value@),
{
    let chars = chars_of(value);
    match parse_u32(chars.as_slice()) {
        Some(n) => n,
        None => 0,
    }
}

impl QuestData {
    /// A description with id 0, empty texts and no optional text.
    pub fn blank() -> (q: QuestData)
        ensures
            q@ == QuestDataView::blank(),
    {
        QuestData {
            id: 0,
            name: String::new(),
            min_level: 0,
            reward_xp: 0,
            offer_title: String::new(),
            offer_narrative: String::new(),
            offer_objective: String::new(),
            offer_reward: String::new(),
            journal_description: String::new(),
            journal_objective: None,
            journal_reward: None,
            progress_format: None,
            completion_message: None,
        }
    }
}

/// Sets the field of `quest` that `key` names to `value`; an unknown key
/// changes nothing.
pub fn set_field(quest: &mut QuestData, key: &str, value: &str)
    ensures
        final(quest)@ == old(quest)@.set_field(key@, value@),
{
    if str_eq(key, "id") {
        quest.id = number_of(value);
    } else if str_eq(key, "name") {
        quest.name = String::from_str(value);
    } else if str_eq(key, "min_level") {
        quest.min_level = number_of(value);
    } else if str_eq(key, "reward_xp") {
        quest.reward_xp = number_of(value);
    } else if str_eq(key, "offer_title") {
        quest.offer_title = String::from_str(value);
    } else if str_eq(key, "offer_narrative") {
        quest.offer_narrative = String::from_str(value);
    } else if str_eq(key, "offer_objective") {
        quest.offer_objective = String::from_str(value);
    } else if str_eq(key, "offer_reward") {
        quest.offer_reward = String::from_str(value);
    } else if str_eq(key, "journal_description") {
        quest.journal_description = String::from_str(value);
    } else if str_eq(key, "journal_objective") {
        quest.journal_objective = Some(String::from_str(value));
    } else if str_eq(key, "journal_reward") {
        quest.journal_reward = Some(String::from_str(value));
    } else if str_eq(key, "progress_format") {
        quest.progress_format = Some(String::from_str(value));
    } else if str_eq(key, "completion_message") {
        quest.completion_message = Some(String::from_str(value));
    }
}

/// Counts the white space skipped after a `=`, as `skipped_space` does.
fn count_skipped_space(chars: &[char], at: usize) -> (n: usize)
    requires
        at <= chars@.len(),
    ensures
        n == skipped_space(chars@, at as int),
        at + n <= chars@.len(),
{
    let len = chars.len();
    if !(at < len && char_is_whitespace(chars[at])) {
        0
    } else if !(at + 1 < len && char_is_whitespace(chars[at + 1])) {
        1
    } else if !(at + 2 < len && char_is_whitespace(chars[at + 2])) {
        2
    } else {
        3
    }
}

/// Counts the `"` at `at`, as `opening_quotes` does.
fn count_opening_quotes(chars: &[char], at: usize) -> (n: usize)
    requires
        at <= chars@.len(),
    ensures
        n == opening_quotes(chars@, at as int),
        at + n <= chars@.len(),
{
    let len = chars.len();
    if !(at < len && chars[at] == '"') {
        0
    } else if !(at + 1 < len && chars[at + 1] == '"') {
        1
    } else if !(at + 2 < len && chars[at + 2] == '"') {
        2
    } else {
        3
    }
}

/// Reads the fields of a block body into a description.
pub fn parse_fields(body: &str) -> (quest: QuestData)
    ensures
        quest@ == spec_parse_fields(body@),
{
    let chars = chars_of(body);
    let len = chars.len();
    let mut quest = QuestData::blank();
    let mut key_from: usize = 0;
    let mut key_to: usize = 0;
    let mut value_from: usize = 0;
    let mut multiline = false;
    let mut i: usize = 0;
    assert(body@.subrange(0, 0) =~= Seq::<char>::empty());
    while i < len
        invariant
            chars@ == body@,
            len == chars@.len(),
            key_from <= key_to <= len,
            value_from <= i <= len,
            read_fields(
                body@,
                i as int,
                FieldState {
                    quest: quest@,
                    key: body@.subrange(key_from as int, key_to as int),
                    value: body@.subrange(value_from as int, i as int),
                    multiline,
                },
            ) == spec_parse_fields(body@),
        decreases len - i,
    {
        let ghost st = FieldState {
            quest: quest@,
            key: body@.subrange(key_from as int, key_to as int),
            value: body@.subrange(value_from as int, i as int),
            multiline,
        };
        let ghost next = st.step(body@, i as int);
        let c = chars[i];
        if multiline {
            let quotes = count_opening_quotes(chars.as_slice(), i);
            if c == '"' && quotes == 3 {
                let (a, b) = trim_range(chars.as_slice(), value_from, i);
                set_field(
                    &mut quest,
                    body.substring_char(key_from, key_to),
                    body.substring_char(a, b),
                );
                multiline = false;
                key_from = 0;
                key_to = 0;
                i = i + 3;
                value_from = i;
            } else if c == '"' && quotes == 2 {
                proof {
                    assert(st.gathered('"').gathered('"').value =~= body@.subrange(
                        value_from as int,
                        i + 2,
                    ));
                }
                i = i + 2;
            } else {
                proof {
                    assert(st.gathered(c).value =~= body@.subrange(value_from as int, i + 1));
                }
                i = i + 1;
            }
        } else if c == '=' {
            let (a, b) = trim_range(chars.as_slice(), value_from, i);
            key_from = a;
            key_to = b;
            let space = count_skipped_space(chars.as_slice(), i + 1);
            let quotes = if space < 3 {
                count_opening_quotes(chars.as_slice(), i + 1 + space)
            } else {
                0
            };
            multiline = quotes == 3;
            i = i + 1 + space + quotes;
            value_from = i;
        } else {
            let mut stores = false;
            if c == '\n' && key_to > key_from {
                let (a, b) = trim_range(chars.as_slice(), value_from, i);
                if b > a {
                    stores = true;
                    set_field(
                        &mut quest,
                        body.substring_char(key_from, key_to),
                        body.substring_char(a, b),
                    );
                    key_from = 0;
                    key_to = 0;
                }
            }
            if stores {
                i = i + 1;
                value_from = i;
            } else {
                proof {
                    assert(st.gathered(c).value =~= body@.subrange(value_from as int, i + 1));
                }
                i = i + 1;
            }
        }
        proof {
            assert(body@.subrange(0, 0) =~= Seq::<char>::empty());
            assert(body@.subrange(i as int, i as int) =~= Seq::<char>::empty());
            let now = FieldState {
                quest: quest@,
                key: body@.subrange(key_from as int, key_to as int),
                value: body@.subrange(value_from as int, i as int),
                multiline,
            };
            assert(now =~= next.0);
            assert(i == next.1);
        }
    }
    if key_to > key_from {
        let (a, b) = trim_range(chars.as_slice(), value_from, len);
        if b > a {
            set_field(&mut quest, body.substring_char(key_from, key_to), body.substring_char(a, b));
        }
    }
    quest
}

/// Whether every character of `s` is a decimal digit or white space.
pub open spec fn digits_or_space(s: Seq<char>) -> bool {
    forall|i: int| 0 <= i < s.len() ==> is_ascii_digit(#[trigger] s[i]) || is_whitespace(s[i])
}

/// The part of a trimmed block that holds its fields: the block without its
/// first line, where that line holds nothing but digits and white space (the
/// number that follows `%% QUEST`), and the whole block otherwise.
pub open spec fn block_body(block: Seq<char>) -> Seq<char> {
    let line_end = find_from(block, seq!['\n'], 0);
    if line_end < block.len() && digits_or_space(block.take(line_end)) {
        block.skip(line_end + 1)
    } else {
        block
    }
}

/// The description that a block gives, if it gives one. A block that is
/// empty once trimmed, or that then begins with `#`, gives none; nor does
/// one whose fields leave the id at 0.
pub open spec fn spec_parse_block(block: Seq<char>) -> Option<QuestDataView> {
    let trimmed = trim(block);
    if trimmed.len() == 0 || trimmed[0] == '#' {
        None
    } else {
        let quest = spec_parse_fields(block_body(trimmed));
        if quest.id > 0 {
            Some(quest)
        } else {
            None
        }
    }
}

/// An optional description by its value.
pub open spec fn quest_view(q: Option<QuestData>) -> Option<QuestDataView> {
    match q {
        Some(quest) => Some(quest@),
        None => None,
    }
}

/// The quests by id, with what `block` gives added; a quest replaces an
/// earlier one of the same id.
pub open spec fn with_block(quests: Map<u32, QuestDataView>, block: Seq<char>) -> Map<
    u32,
    QuestDataView,
> {
    match spec_parse_block(block) {
        Some(quest) => quests.insert(quest.id, quest),
        None => quests,
    }
}

/// The quests by id, with what each of `blocks` gives added in turn.
pub open spec fn with_blocks(quests: Map<u32, QuestDataView>, blocks: Seq<Seq<char>>) -> Map<
    u32,
    QuestDataView,
>
    decreases blocks.len(),
{
    if blocks.len() == 0 {
        quests
    } else {
        with_blocks(with_block(quests, blocks[0]), blocks.drop_first())
    }
}

/// The quests that a quest text describes, by id: the text is cut at every
/// `%% QUEST`, and each piece is read as a block.
pub open spec fn spec_load_quests(text: Seq<char>) -> Map<u32, QuestDataView> {
    with_blocks(Map::empty(), split(text, "%% QUEST"@))
}

/// Quests by id, each by its value.
pub open spec fn quests_view(quests: Map<u32, QuestData>) -> Map<u32, QuestDataView> {
    Map::new(|id: u32| quests.dom().contains(id), |id: u32| quests[id]@)
}

/// Reads one block of a quest text.
pub fn parse_block(block: &str) -> (quest: Option<QuestData>)
    ensures
        quest_view(quest) == spec_parse_block(block@),
{
    let chars = chars_of(block);
    let (from, to) = trim_range(chars.as_slice(), 0, chars.len());
    assert(chars@.subrange(0, chars@.len() as int) =~= block@);
    let ghost trimmed = trim(block@);
    if from == to {
        return None;
    }
    assert(trimmed[0] == chars@[from as int]);
    if chars[from] == '#' {
        return None;
    }
    let line_break = chars_of("\n");
    proof {
        reveal_strlit("\n");
        assert(line_break@ =~= seq!['\n']);
    }
    let line_end = find_in(chars.as_slice(), line_break.as_slice(), from, to);
    let mut skip_line = line_end < to;
    if skip_line {
        let mut i: usize = from;
        while i < line_end
            invariant
                from <= i <= line_end < to <= chars@.len(),
                trimmed == chars@.subrange(from as int, to as int),
                skip_line <==> digits_or_space(trimmed.take(i - from)),
            decreases line_end - i,
        {
            let c = chars[i];
            assert(trimmed.take(i - from + 1)[i - from] == c);
            if !(char_is_ascii_digit(c) || char_is_whitespace(c)) {
                skip_line = false;
            }
            proof {
                let shorter = trimmed.take(i - from);
                let longer = trimmed.take(i - from + 1);
                if digits_or_space(longer) {
                    assert forall|k: int| 0 <= k < shorter.len() implies is_ascii_digit(
                        #[trigger] shorter[k],
                    ) || is_whitespace(shorter[k]) by {
                        assert(shorter[k] == longer[k]);
                    }
                }
                if digits_or_space(shorter) && (is_ascii_digit(c) || is_whitespace(c)) {
                    assert forall|k: int| 0 <= k < longer.len() implies is_ascii_digit(
                        #[trigger] longer[k],
                    ) || is_whitespace(longer[k]) by {
                        if k < shorter.len() {
                            assert(shorter[k] == longer[k]);
                        }
                    }
                }
            }
            i = i + 1;
        }
    }
    let body = if skip_line {
        block.substring_char(line_end + 1, to)
    } else {
        block.substring_char(from, to)
    };
    proof {
        if skip_line {
            assert(body@ =~= trimmed.skip(line_end - from + 1));
        } else {
            assert(body@ =~= trimmed);
        }
    }
    let quest = parse_fields(body);
    if quest.id > 0 {
        Some(quest)
    } else {
        None
    }
}

/// Reads a quest text: the quests it describes, by id. Where two blocks
/// give the same id, the later one counts.
pub fn load_quests(text: &str) -> (quests: HashMap<u32, QuestData>)
    ensures
        quests_view(quests@) == spec_load_quests(text@),
{
    proof {
        reveal_strlit("%% QUEST");
    }
    let blocks = split_text(text, "%% QUEST");
    let mut quests: HashMap<u32, QuestData> = HashMap::new();
    assert(quests_view(quests@) =~= Map::<u32, QuestDataView>::empty());
    assert(texts(blocks@).skip(0) =~= texts(blocks@));
    let mut i: usize = 0;
    while i < blocks.len()
        invariant
            i <= blocks@.len(),
            with_blocks(quests_view(quests@), texts(blocks@).skip(i as int)) == spec_load_quests(
                text@,
            ),
        decreases blocks@.len() - i,
    {
        let ghost before = quests_view(quests@);
        let ghost left = texts(blocks@).skip(i as int);
        assert(left[0] == blocks@[i as int]@);
        assert(left.drop_first() =~= texts(blocks@).skip(i + 1));
        match parse_block(blocks[i].as_str()) {
            Some(quest) => {
                let id = quest.id;
                let ghost value = quest@;
                quests.insert(id, quest);
                assert(quests_view(quests@) =~= before.insert(id, value));
            },
            None => {},
        }
        i = i + 1;
    }
    quests
}

} // verus!
