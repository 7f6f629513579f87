//! Commands: what a player can ask for, and what becomes of the character
//! when it is done.

use crate::domain::ability_score::{ability_named, lowercase_of, modifier_of};
use crate::domain::character::{Character, CharacterView};
use crate::domain::hit_points::HitPointsView;
use crate::domain::inventory::{
    entries_add_container, entries_add_item, stays_in_range, AddContainerResult, AddContainerResultView,
    AddItemResult, AddItemResultView, ItemView,
};
use crate::domain::limits::fits_isize;
use crate::domain::path::{clone_path, is_text, path_view, PathView};
use crate::domain::roll::{
    can_calculate, can_throw_all, count_results, is_thrown_for, matching_bonuses, roll_result,
    thrown_view,
    EffectResultView, Roll, RolledDiceView, RollResult,
};
use vstd::prelude::*;

verus! {

/// An ability, as a player names it when asking for a roll.
#[derive(Debug, Clone, Copy, PartialEq, Eq, Structural)]
pub enum Ability {
    Strength,
    Dexterity,
    Constitution,
    Intelligence,
    Wisdom,
    Charisma,
}

impl Ability {
    /// The ability's name as it stands in the path of a roll.
    pub open spec fn spec_to_path(self) -> Seq<char> {
        match self {
            Ability::Strength => "strength"@,
            Ability::Dexterity => "dexterity"@,
            Ability::Constitution => "constitution"@,
            Ability::Intelligence => "intelligence"@,
            Ability::Wisdom => "wisdom"@,
            Ability::Charisma => "charisma"@,
        }
    }

    /// The ability's name as it stands in the path of a roll: in lower case.
    pub fn to_path(&self) -> (name: String)
        ensures
            name@ == self.spec_to_path(),
    {
        match self {
            Ability::Strength => "strength".to_owned(),
            Ability::Dexterity => "dexterity".to_owned(),
            Ability::Constitution => "constitution".to_owned(),
            Ability::Intelligence => "intelligence".to_owned(),
            Ability::Wisdom => "wisdom".to_owned(),
            Ability::Charisma => "charisma".to_owned(),
        }
    }
}

/// A skill that a player can ask a roll for.
#[derive(Debug, Clone, Copy, PartialEq, Eq, Structural)]
pub enum Skill {
    Acrobatics,
    AnimalHandling,
    Arcana,
    Athletics,
    Deception,
    History,
    Insight,
    Intimidation,
    Investigation,
    Medicine,
    Nature,
    Perception,
    Performance,
    Persuasion,
    Religion,
    SleightOfHand,
    Stealth,
    Survival,
}

impl Skill {
    /// The skill's name as it stands in the path of a roll.
    pub open spec fn spec_to_path(self) -> Seq<char> {
        match self {
            Skill::Acrobatics => "acrobatics"@,
            Skill::AnimalHandling => "animal-handling"@,
            Skill::Arcana => "arcana"@,
            Skill::Athletics => "athletics"@,
            Skill::Deception => "deception"@,
            Skill::History => "history"@,
            Skill::Insight => "insight"@,
            Skill::Intimidation => "intimidation"@,
            Skill::Investigation => "investigation"@,
            Skill::Medicine => "medicine"@,
            Skill::Nature => "nature"@,
            Skill::Perception => "perception"@,
            Skill::Performance => "performance"@,
            Skill::Persuasion => "persuasion"@,
            Skill::Religion => "religion"@,
            Skill::SleightOfHand => "sleight-of-hand"@,
            Skill::Stealth => "stealth"@,
            Skill::Survival => "survival"@,
        }
    }

    /// The skill's name as it stands in the path of a roll: in lower case,
    /// its words joined by hyphens.
    pub fn to_path(&self) -> (name: String)
        ensures
            name@ == self.spec_to_path(),
    {
        match self {
            Skill::Acrobatics => "acrobatics".to_owned(),
            Skill::AnimalHandling => "animal-handling".to_owned(),
            Skill::Arcana => "arcana".to_owned(),
            Skill::Athletics => "athletics".to_owned(),
            Skill::Deception => "deception".to_owned(),
            Skill::History => "history".to_owned(),
            Skill::Insight => "insight".to_owned(),
            Skill::Intimidation => "intimidation".to_owned(),
            Skill::Investigation => "investigation".to_owned(),
            Skill::Medicine => "medicine".to_owned(),
            Skill::Nature => "nature".to_owned(),
            Skill::Perception => "perception".to_owned(),
            Skill::Performance => "performance".to_owned(),
            Skill::Persuasion => "persuasion".to_owned(),
            Skill::Religion => "religion".to_owned(),
            Skill::SleightOfHand => "sleight-of-hand".to_owned(),
            Skill::Stealth => "stealth".to_owned(),
            Skill::Survival => "survival".to_owned(),
        }
    }
}

/// A roll that a player asks for.
#[derive(Debug, Clone, Copy, PartialEq, Eq, Structural)]
pub enum RollCmd {
    Skill { skill: Skill },
    Ability { ability: Ability },
    SavingThrow { ability: Ability },
}

impl RollCmd {
    /// The path of the roll: its kind, then what it is for.
    pub open spec fn spec_to_path(self) -> PathView {
        match self {
            RollCmd::Skill { skill } => seq!["skill"@, skill.spec_to_path()],
            RollCmd::Ability { ability } => seq!["ability"@, ability.spec_to_path()],
            RollCmd::SavingThrow { ability } => seq!["saving-throw"@, ability.spec_to_path()],
        }
    }

    /// The path of the roll: its kind, then what it is for.
    pub fn to_path(&self) -> (path: Vec<String>)
        ensures
            path_view(path@) == self.spec_to_path(),
    {
        let mut path: Vec<String> = Vec::new();
        match self {
            RollCmd::Skill { skill } => {
                path.push("skill".to_owned());
                path.push(skill.to_path());
            },
            RollCmd::Ability { ability } => {
                path.push("ability".to_owned());
                path.push(ability.to_path());
            },
            RollCmd::SavingThrow { ability } => {
                path.push("saving-throw".to_owned());
                path.push(ability.to_path());
            },
        }
        assert(path_view(path@) == self.spec_to_path());
        path
    }
}

/// What a player can ask of the hit points.
#[derive(Debug, Clone, Copy, PartialEq, Eq, Structural)]
pub enum HitPointsCmd {
    Show,
    IncreaseMax { hit_points: isize },
    Add { hit_points: isize },
    Remove { hit_points: isize },
    AddTemporary { hit_points: isize },
    ResetTemporary,
    Reset,
}

impl HitPointsCmd {
    /// The hit points after the command. Removing is healing by the
    /// negative amount.
    pub open spec fn apply(self, hit_points: HitPointsView) -> HitPointsView {
        match self {
            HitPointsCmd::Show => hit_points,
            HitPointsCmd::IncreaseMax { hit_points: amount } => hit_points.increase_max(amount as int),
            HitPointsCmd::Add { hit_points: amount } => hit_points.add_current(amount as int),
            HitPointsCmd::Remove { hit_points: amount } => hit_points.add_current(-amount),
            HitPointsCmd::AddTemporary { hit_points: amount } => hit_points.add_temporary(
                amount as int,
            ),
            HitPointsCmd::ResetTemporary => hit_points.reset_temporary(),
            HitPointsCmd::Reset => hit_points.reset(),
        }
    }

    /// Whether the command can be carried out within the range of an
    /// `isize`: the amount that is applied, and each pool that changes.
    pub open spec fn fits(self, hit_points: HitPointsView) -> bool {
        match self {
            HitPointsCmd::IncreaseMax { .. } => fits_isize(self.apply(hit_points).max),
            HitPointsCmd::Add { .. } => fits_isize(self.apply(hit_points).current),
            HitPointsCmd::Remove { hit_points: amount } => fits_isize(-amount) && fits_isize(
                self.apply(hit_points).current,
            ),
            HitPointsCmd::AddTemporary { .. } => fits_isize(self.apply(hit_points).temporary)
                && fits_isize(self.apply(hit_points).current),
            _ => true,
        }
    }
}

/// Carries out a command on the character's hit points, and says whether it
/// did: a command that would leave the range of an `isize` changes nothing.
pub fn handle_hitpoints_cmd(cmd: HitPointsCmd, character: &mut Character) -> (applied: bool)
    ensures
        applied == cmd.fits(old(character)@.hit_points),
        final(character)@ == (CharacterView {
            hit_points: if applied {
                cmd.apply(old(character)@.hit_points)
            } else {
                old(character)@.hit_points
            },
            ..old(character)@
        }),
        final(character).spec_inventory() == old(character).spec_inventory(),
        old(character).wf() ==> final(character).wf(),
{
    let hit_points = character.hit_points();
    match cmd {
        HitPointsCmd::Show => true,
        HitPointsCmd::IncreaseMax { hit_points: amount } => {
            if hit_points.can_increase_max(amount) {
                hit_points.increase_max(amount);
                true
            } else {
                false
            }
        },
        HitPointsCmd::Add { hit_points: amount } => {
            if hit_points.can_add_current(amount) {
                hit_points.add_current(amount);
                true
            } else {
                false
            }
        },
        HitPointsCmd::Remove { hit_points: amount } => {
            if amount != isize::MIN && hit_points.can_add_current(-amount) {
                hit_points.add_current(-amount);
                true
            } else {
                false
            }
        },
        HitPointsCmd::AddTemporary { hit_points: amount } => {
            if hit_points.can_add_temporary(amount) {
                hit_points.add_temporary(amount);
                true
            } else {
                false
            }
        },
        HitPointsCmd::ResetTemporary => {
            hit_points.reset_temporary();
            true
        },
        HitPointsCmd::Reset => {
            hit_points.reset();
            true
        },
    }
}

/// Whether what stands between two slashes of a written path is a name:
/// not empty, and neither of the two marks that stand for a place itself
/// and for its parent.
pub open spec fn is_name(segment: Seq<char>) -> bool {
    segment.len() > 0 && segment != "."@ && segment != ".."@
}

/// The names in a written path from `start` on, where no slash stands from
/// `start` up to `at`.
pub open spec fn names_from(text: Seq<char>, start: int, at: int) -> PathView
    decreases text.len() - at,
{
    if at >= text.len() {
        if 0 <= start <= text.len() && is_name(text.subrange(start, text.len() as int)) {
            seq![text.subrange(start, text.len() as int)]
        } else {
            Seq::empty()
        }
    } else if text[at] == '/' {
        if 0 <= start <= at && is_name(text.subrange(start, at)) {
            seq![text.subrange(start, at)] + names_from(text, at + 1, at + 1)
        } else {
            names_from(text, at + 1, at + 1)
        }
    } else {
        names_from(text, start, at + 1)
    }
}

/// The names in a written path: what stands between its slashes, in order,
/// as far as it is a name.
pub open spec fn names_in(text: Seq<char>) -> PathView {
    names_from(text, 0, 0)
}

/// Whether no slash stands in a segment.
pub open spec fn has_no_slash(segment: Seq<char>) -> bool {
    forall|k: int| 0 <= k < segment.len() ==> segment[k] != '/'
}

/// Whether every segment is a name and holds no slash.
pub open spec fn are_names(path: PathView) -> bool {
    forall|i: int| 0 <= i < path.len() ==> is_name(#[trigger] path[i]) && has_no_slash(path[i])
}

/// Every segment that comes out of a written path is a name and holds no
/// slash.
proof fn lemma_names_from_are_names(text: Seq<char>, start: int, at: int)
    requires
        0 <= start <= at,
        forall|k: int| start <= k < at && k < text.len() ==> text[k] != '/',
    ensures
        are_names(names_from(text, start, at)),
    decreases text.len() - at,
{
    let names = names_from(text, start, at);
    let end = if at >= text.len() {
        text.len() as int
    } else {
        at
    };
    if start <= end && is_name(text.subrange(start, end)) {
        let name = text.subrange(start, end);
        assert forall|k: int| 0 <= k < name.len() implies name[k] != '/' by {
            assert(name[k] == text[start + k]);
        }
    }
    if at >= text.len() {
    } else if text[at] == '/' {
        lemma_names_from_are_names(text, at + 1, at + 1);
        let rest = names_from(text, at + 1, at + 1);
        if is_name(text.subrange(start, at)) {
            assert forall|i: int| 0 <= i < names.len() implies is_name(#[trigger] names[i])
                && has_no_slash(names[i]) by {
                if i > 0 {
                    assert(names[i] == rest[i - 1]);
                }
            }
        }
    } else {
        lemma_names_from_are_names(text, start, at + 1);
    }
}

/// Every segment of a path that was read is a name and holds no slash.
pub proof fn lemma_read_names_are_names(text: Seq<char>)
    ensures
        are_names(names_in(text)),
{
    lemma_names_from_are_names(text, 0, 0);
}

/// Reads a written path, as in `pack/rope`: the names between the slashes.
/// Empty segments are passed over, and so are `.` and `..`.
pub fn parse_inventory_path(name: &str) -> (path: Vec<String>)
    ensures
        path_view(path@) == names_in(name@),
{
    let length = name.unicode_len();
    let mut path: Vec<String> = Vec::new();
    let mut start: usize = 0;
    let mut at: usize = 0;
    assert(path_view(path@) == Seq::<Seq<char>>::empty());
    while at < length
        invariant
            length == name@.len(),
            start <= at <= length,
            names_in(name@) == path_view(path@) + names_from(name@, start as int, at as int),
        decreases length - at,
    {
        if name.get_char(at) == '/' {
            let segment = name.substring_char(start, at);
            if at > start && !is_text(segment, ".") && !is_text(segment, "..") {
                let ghost before = path@;
                path.push(segment.to_owned());
                assert(path_view(path@) == path_view(before) + seq![name@.subrange(
                    start as int,
                    at as int,
                )]);
            }
            start = at + 1;
        }
        at += 1;
    }
    let segment = name.substring_char(start, length);
    if length > start && !is_text(segment, ".") && !is_text(segment, "..") {
        let ghost before = path@;
        path.push(segment.to_owned());
        assert(path_view(path@) == path_view(before) + seq![name@.subrange(
            start as int,
            length as int,
        )]);
    }
    path
}

/// What a player can ask of the containers of the inventory.
#[derive(Debug, PartialEq, Eq)]
pub enum InventoryContainerCmd {
    Add { name: Vec<String> },
    Remove { name: Vec<String> },
}

/// What a player can ask of the inventory. A name is a path: the containers
/// on the way, then the item itself.
#[derive(Debug, PartialEq, Eq)]
pub enum InventoryCmd {
    Add { name: Vec<String>, count: isize },
    Remove { name: Vec<String>, count: isize },
    Show,
    Container { cmd: InventoryContainerCmd },
}

/// What an `InventoryContainerCmd` stands for.
pub ghost enum InventoryContainerCmdView {
    Add { name: PathView },
    Remove { name: PathView },
}

/// What an `InventoryCmd` stands for.
pub ghost enum InventoryCmdView {
    Add { name: PathView, count: int },
    Remove { name: PathView, count: int },
    Show,
    Container { cmd: InventoryContainerCmdView },
}

impl View for InventoryContainerCmd {
    type V = InventoryContainerCmdView;

    open spec fn view(&self) -> InventoryContainerCmdView {
        match self {
            InventoryContainerCmd::Add { name } => InventoryContainerCmdView::Add {
                name: path_view(name@),
            },
            InventoryContainerCmd::Remove { name } => InventoryContainerCmdView::Remove {
                name: path_view(name@),
            },
        }
    }
}

impl View for InventoryCmd {
    type V = InventoryCmdView;

    open spec fn view(&self) -> InventoryCmdView {
        match self {
            InventoryCmd::Add { name, count } => InventoryCmdView::Add {
                name: path_view(name@),
                count: *count as int,
            },
            InventoryCmd::Remove { name, count } => InventoryCmdView::Remove {
                name: path_view(name@),
                count: *count as int,
            },
            InventoryCmd::Show => InventoryCmdView::Show,
            InventoryCmd::Container { cmd } => InventoryCmdView::Container { cmd: cmd@ },
        }
    }
}

impl Clone for InventoryContainerCmd {
    fn clone(&self) -> (copy: InventoryContainerCmd)
        ensures
            copy@ == self@,
    {
        match self {
            InventoryContainerCmd::Add { name } => InventoryContainerCmd::Add {
                name: clone_path(name),
            },
            InventoryContainerCmd::Remove { name } => InventoryContainerCmd::Remove {
                name: clone_path(name),
            },
        }
    }
}

impl Clone for InventoryCmd {
    fn clone(&self) -> (copy: InventoryCmd)
        ensures
            copy@ == self@,
    {
        match self {
            InventoryCmd::Add { name, count } => InventoryCmd::Add {
                name: clone_path(name),
                count: *count,
            },
            InventoryCmd::Remove { name, count } => InventoryCmd::Remove {
                name: clone_path(name),
                count: *count,
            },
            InventoryCmd::Show => InventoryCmd::Show,
            InventoryCmd::Container { cmd } => InventoryCmd::Container { cmd: cmd.clone() },
        }
    }
}

/// What came of a command on the inventory.
#[derive(Debug, PartialEq, Eq)]
pub enum InventoryCmdResult {
    /// Nothing was to be changed: the inventory is to be shown.
    Shown,
    /// An item was added or taken, or could not be.
    Item(AddItemResult),
    /// A container was created, or could not be.
    Container(AddContainerResult),
    /// The command has no effect.
    Nothing,
    /// The amount, or the count that it would leave, cannot be held in an
    /// `isize`: nothing was changed.
    OutOfRange,
}

/// What an `InventoryCmdResult` stands for.
pub ghost enum InventoryCmdResultView {
    Shown,
    Item(AddItemResultView),
    Container(AddContainerResultView),
    Nothing,
    OutOfRange,
}

impl View for InventoryCmdResult {
    type V = InventoryCmdResultView;

    open spec fn view(&self) -> InventoryCmdResultView {
        match self {
            InventoryCmdResult::Shown => InventoryCmdResultView::Shown,
            InventoryCmdResult::Item(result) => InventoryCmdResultView::Item(result@),
            InventoryCmdResult::Container(result) => InventoryCmdResultView::Container(result@),
            InventoryCmdResult::Nothing => InventoryCmdResultView::Nothing,
            InventoryCmdResult::OutOfRange => InventoryCmdResultView::OutOfRange,
        }
    }
}

/// The inventory after `delta` was added where `name` leads to, with what
/// is reported of it.
pub open spec fn change_item(items: Map<Seq<char>, ItemView>, name: PathView, delta: int) -> (
    Map<Seq<char>, ItemView>,
    InventoryCmdResultView,
) {
    let (after, result) = entries_add_item(items, name, delta);
    if stays_in_range(result) {
        (after, InventoryCmdResultView::Item(result.with_path(name)))
    } else {
        (items, InventoryCmdResultView::OutOfRange)
    }
}

impl InventoryCmdView {
    /// The inventory after the command, with what is reported of it.
    /// Removing is adding the negative amount; removing a container has no
    /// effect.
    pub open spec fn apply(self, items: Map<Seq<char>, ItemView>) -> (
        Map<Seq<char>, ItemView>,
        InventoryCmdResultView,
    ) {
        match self {
            InventoryCmdView::Add { name, count } => change_item(items, name, count),
            InventoryCmdView::Remove { name, count } => {
                if fits_isize(-count) {
                    change_item(items, name, -count)
                } else {
                    (items, InventoryCmdResultView::OutOfRange)
                }
            },
            InventoryCmdView::Show => (items, InventoryCmdResultView::Shown),
            InventoryCmdView::Container { cmd: InventoryContainerCmdView::Add { name } } => {
                let (after, result) = entries_add_container(items, name);
                (after, InventoryCmdResultView::Container(result.with_path(name)))
            },
            InventoryCmdView::Container { cmd: InventoryContainerCmdView::Remove { .. } } => (
                items,
                InventoryCmdResultView::Nothing,
            ),
        }
    }
}

/// Carries out a command on the character's inventory and reports what came
/// of it.
pub fn handle_inventory_cmd(cmd: InventoryCmd, character: &mut Character) -> (result:
    InventoryCmdResult)
    ensures
        (final(character)@.inventory, result@) == cmd@.apply(old(character)@.inventory),
        final(character)@ == (CharacterView {
            inventory: final(character)@.inventory,
            ..old(character)@
        }),
        final(character).spec_hit_points() == old(character).spec_hit_points(),
        old(character).spec_inventory().wf() ==> final(character).spec_inventory().wf(),
        old(character).wf() ==> final(character).wf(),
{
    let inventory = character.inventory();
    match cmd {
        InventoryCmd::Add { name, count } => match inventory.checked_add_item(name, count) {
            Some(result) => InventoryCmdResult::Item(result),
            None => InventoryCmdResult::OutOfRange,
        },
        InventoryCmd::Remove { name, count } => {
            if count == isize::MIN {
                InventoryCmdResult::OutOfRange
            } else {
                match inventory.checked_add_item(name, -count) {
                    Some(result) => InventoryCmdResult::Item(result),
                    None => InventoryCmdResult::OutOfRange,
                }
            }
        },
        InventoryCmd::Show => InventoryCmdResult::Shown,
        InventoryCmd::Container { cmd } => match cmd {
            InventoryContainerCmd::Add { name } => InventoryCmdResult::Container(
                inventory.add_container(name),
            ),
            InventoryContainerCmd::Remove { .. } => InventoryCmdResult::Nothing,
        },
    }
}

/// What came of asking for a roll.
#[derive(Debug, PartialEq, Eq)]
pub enum RollCmdResult {
    /// The path was empty.
    NothingToRoll,
    /// A plain check of an ability: a twenty-sided die and the ability's
    /// modifier.
    AbilityCheck { modifier: isize },
    /// The path asked for a check of an ability and named none.
    InvalidAbilityPath,
    /// What the character's effects add to the roll.
    Rolled(RollResult),
    /// The roll cannot be made: a die that it throws has no sides.
    CannotThrow,
    /// The roll cannot be made: proficiency counts, and the total level
    /// cannot be held in an `isize`.
    LevelOutOfRange,
}

/// What a `RollCmdResult` stands for.
pub ghost enum RollCmdResultView {
    NothingToRoll,
    AbilityCheck { modifier: int },
    InvalidAbilityPath,
    Rolled(Seq<EffectResultView>),
    CannotThrow,
    LevelOutOfRange,
}

impl View for RollCmdResult {
    type V = RollCmdResultView;

    open spec fn view(&self) -> RollCmdResultView {
        match self {
            RollCmdResult::NothingToRoll => RollCmdResultView::NothingToRoll,
            RollCmdResult::AbilityCheck { modifier } => RollCmdResultView::AbilityCheck {
                modifier: *modifier as int,
            },
            RollCmdResult::InvalidAbilityPath => RollCmdResultView::InvalidAbilityPath,
            RollCmdResult::Rolled(result) => RollCmdResultView::Rolled(result@),
            RollCmdResult::CannotThrow => RollCmdResultView::CannotThrow,
            RollCmdResult::LevelOutOfRange => RollCmdResultView::LevelOutOfRange,
        }
    }
}

/// Whether `result` can come of asking the character for the roll that
/// `name` is the path of.
///
/// A path that begins with `ability` never reaches the character's effects:
/// its second segment names the ability, in any case of letters, and the
/// answer is that ability's modifier. Every other path is answered from the
/// effects, given what the dice show.
pub open spec fn is_roll_cmd_result(name: PathView, character: CharacterView, result: RollCmdResultView) -> bool {
    if name.len() == 0 {
        result == RollCmdResultView::NothingToRoll
    } else if name[0] == "ability"@ {
        let ability = if name.len() > 1 {
            ability_named(lowercase_of(name[1]))
        } else {
            None
        };
        match ability {
            Some(ability) => result == (RollCmdResultView::AbilityCheck {
                modifier: modifier_of(character.ability_scores[ability]),
            }),
            None => result == RollCmdResultView::InvalidAbilityPath,
        }
    } else if !can_throw_all(matching_bonuses(character.all_effects(), name)) {
        result == RollCmdResultView::CannotThrow
    } else if !can_calculate(name, character) {
        result == RollCmdResultView::LevelOutOfRange
    } else {
        result matches RollCmdResultView::Rolled(effects) && effects.len() == count_results(
            matching_bonuses(character.all_effects(), name),
        ) && exists|thrown: Seq<Seq<RolledDiceView>>|
            is_thrown_for(thrown, matching_bonuses(character.all_effects(), name)) && effects
                == #[trigger] roll_result(name, character, thrown)
    }
}

/// Answers the roll that `name` is the path of.
pub fn handle_roll_cmd(name: &Vec<String>, character: &Character) -> (result: RollCmdResult)
    ensures
        is_roll_cmd_result(path_view(name@), character@, result@),
{
    if name.len() == 0 {
        RollCmdResult::NothingToRoll
    } else if is_text(name[0].as_str(), "ability") {
        let ability = if name.len() > 1 {
            crate::domain::ability_score::Ability::of(name[1].clone())
        } else {
            None
        };
        match ability {
            Some(ability) => RollCmdResult::AbilityCheck {
                modifier: character.get_ability_score(ability).modifier(),
            },
            None => RollCmdResult::InvalidAbilityPath,
        }
    } else {
        let matched = Roll::matching_bonuses(name, character);
        if !Roll::can_throw(&matched) {
            RollCmdResult::CannotThrow
        } else if Roll::grants_proficiency(&matched) && !character.has_total_level() {
            RollCmdResult::LevelOutOfRange
        } else {
            let thrown = Roll::throw_all(&matched);
            let ghost shown = thrown_view(thrown@);
            let result = Roll::assemble(&matched, thrown, character);
            assert(result@ == roll_result(path_view(name@), character@, shown));
            RollCmdResult::Rolled(result)
        }
    }
}

/// What a player can ask of the character.
#[allow(inconsistent_fields)]
#[derive(Debug, PartialEq, Eq)]
pub enum CharacterCmd {
    Roll { cmd: RollCmd },
    Inventory { cmd: InventoryCmd },
    HitPoints { cmd: HitPointsCmd },
}

/// What came of a command on the character. After a command on the
/// inventory or on the hit points, that part of the character is to be
/// kept.
#[derive(Debug, PartialEq, Eq)]
pub enum CharacterCmdResult {
    Roll(RollCmdResult),
    Inventory(InventoryCmdResult),
    HitPoints { applied: bool },
}

impl Clone for CharacterCmd {
    fn clone(&self) -> (copy: CharacterCmd)
        ensures
            match (*self, copy) {
                (CharacterCmd::Roll { cmd: left }, CharacterCmd::Roll { cmd: right }) => left == right,
                (
                    CharacterCmd::Inventory { cmd: left },
                    CharacterCmd::Inventory { cmd: right },
                ) => left@ == right@,
                (
                    CharacterCmd::HitPoints { cmd: left },
                    CharacterCmd::HitPoints { cmd: right },
                ) => left == right,
                _ => false,
            },
    {
        match self {
            CharacterCmd::Roll { cmd } => CharacterCmd::Roll { cmd: *cmd },
            CharacterCmd::Inventory { cmd } => CharacterCmd::Inventory { cmd: cmd.clone() },
            CharacterCmd::HitPoints { cmd } => CharacterCmd::HitPoints { cmd: *cmd },
        }
    }
}

/// Carries out a command on the character: a roll leaves the character as
/// it is, a command on the inventory changes nothing but the inventory, and
/// one on the hit points nothing but the hit points.
pub fn handle_character_cmd(cmd: CharacterCmd, character: &mut Character) -> (result:
    CharacterCmdResult)
    ensures
        match cmd {
            CharacterCmd::Roll { cmd } => {
                &&& result matches CharacterCmdResult::Roll(rolled)
                &&& is_roll_cmd_result(cmd.spec_to_path(), old(character)@, rolled@)
                &&& final(character)@ == old(character)@
            },
            CharacterCmd::Inventory { cmd } => {
                &&& result matches CharacterCmdResult::Inventory(changed)
                &&& (final(character)@.inventory, changed@) == cmd@.apply(old(character)@.inventory)
                &&& final(character)@ == (CharacterView {
                    inventory: final(character)@.inventory,
                    ..old(character)@
                })
            },
            CharacterCmd::HitPoints { cmd } => {
                &&& result == (CharacterCmdResult::HitPoints {
                    applied: cmd.fits(old(character)@.hit_points),
                })
                &&& final(character)@ == (CharacterView {
                    hit_points: if cmd.fits(old(character)@.hit_points) {
                        cmd.apply(old(character)@.hit_points)
                    } else {
                        old(character)@.hit_points
                    },
                    ..old(character)@
                })
            },
        },
        old(character).spec_inventory().wf() ==> final(character).spec_inventory().wf(),
        old(character).wf() ==> final(character).wf(),
{
    match cmd {
        CharacterCmd::Roll { cmd } => {
            let name = cmd.to_path();
            CharacterCmdResult::Roll(handle_roll_cmd(&name, character))
        },
        CharacterCmd::Inventory { cmd } => CharacterCmdResult::Inventory(
            handle_inventory_cmd(cmd, character),
        ),
        CharacterCmd::HitPoints { cmd } => CharacterCmdResult::HitPoints {
            applied: handle_hitpoints_cmd(cmd, character),
        },
    }
}

} // verus!
