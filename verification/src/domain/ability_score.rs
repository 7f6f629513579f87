//! The six abilities, their scores and the modifier that a score gives.

use crate::domain::path::is_text;
use vstd::prelude::*;

verus! {

/// One of the six core attributes of a character.
#[derive(Debug, Clone, Copy, PartialEq, Eq, Structural)]
pub enum Ability {
    Strength,
    Dexterity,
    Constitution,
    Intelligence,
    Wisdom,
    Charisma,
}

/// The lowercase form of a text as `str::to_lowercase` of the standard
/// library gives it.
pub uninterp spec fn lowercase_of(text: Seq<char>) -> Seq<char>;

/// Calls `str::to_lowercase`. The result is a function of the text alone,
/// defined by Unicode's lowercase mapping; the contract gives it a name and
/// says nothing else about it.
#[verifier::external_body]
fn to_lowercase(text: &str) -> (lower: String)
    ensures
        lower@ == lowercase_of(text@),
{
    text.to_lowercase()
}

/// The ability that a name in lower case stands for: its full name or its
/// first three letters.
pub open spec fn ability_named(name: Seq<char>) -> Option<Ability> {
    if name == "strength"@ || name == "str"@ {
        Some(Ability::Strength)
    } else if name == "dexterity"@ || name == "dex"@ {
        Some(Ability::Dexterity)
    } else if name == "constitution"@ || name == "con"@ {
        Some(Ability::Constitution)
    } else if name == "intelligence"@ || name == "int"@ {
        Some(Ability::Intelligence)
    } else if name == "wisdom"@ || name == "wis"@ {
        Some(Ability::Wisdom)
    } else if name == "charisma"@ || name == "cha"@ {
        Some(Ability::Charisma)
    } else {
        None
    }
}

impl Ability {
    /// Reads an ability's name without regard to case.
    pub fn of(value: String) -> (ability: Option<Ability>)
        ensures
            ability == ability_named(lowercase_of(value@)),
    {
        let lower = to_lowercase(value.as_str());
        Ability::of_lowercase(lower.as_str())
    }

    /// Reads an ability's name that is already in lower case.
    pub fn of_lowercase(name: &str) -> (ability: Option<Ability>)
        ensures
            ability == ability_named(name@),
    {
        if is_text(name, "strength") || is_text(name, "str") {
            Some(Ability::Strength)
        } else if is_text(name, "dexterity") || is_text(name, "dex") {
            Some(Ability::Dexterity)
        } else if is_text(name, "constitution") || is_text(name, "con") {
            Some(Ability::Constitution)
        } else if is_text(name, "intelligence") || is_text(name, "int") {
            Some(Ability::Intelligence)
        } else if is_text(name, "wisdom") || is_text(name, "wis") {
            Some(Ability::Wisdom)
        } else if is_text(name, "charisma") || is_text(name, "cha") {
            Some(Ability::Charisma)
        } else {
            None
        }
    }

    /// The ability's name as it is written in a roll's path.
    pub open spec fn spec_name(self) -> Seq<char> {
        match self {
            Ability::Strength => "Strength"@,
            Ability::Dexterity => "Dexterity"@,
            Ability::Constitution => "Constitution"@,
            Ability::Intelligence => "Intelligence"@,
            Ability::Wisdom => "Wisdom"@,
            Ability::Charisma => "Charisma"@,
        }
    }

    /// The ability's name, capitalised.
    pub fn name(&self) -> (name: String)
        ensures
            name@ == self.spec_name(),
    {
        match self {
            Ability::Strength => "Strength".to_owned(),
            Ability::Dexterity => "Dexterity".to_owned(),
            Ability::Constitution => "Constitution".to_owned(),
            Ability::Intelligence => "Intelligence".to_owned(),
            Ability::Wisdom => "Wisdom".to_owned(),
            Ability::Charisma => "Charisma".to_owned(),
        }
    }
}

/// The modifier of a score: half of its distance from ten, rounded toward
/// zero from eleven below the midpoint and from ten at or above it.
pub open spec fn modifier_of(value: int) -> int {
    if value < 10 {
        -((11 - value) / 2)
    } else {
        (value - 10) / 2
    }
}

/// The two branches of the modifier together round `(value - 10) / 2` down,
/// toward negative infinity, on both sides of the midpoint.
pub proof fn lemma_modifier_rounds_down(value: int)
    ensures
        2 * modifier_of(value) <= value - 10 < 2 * modifier_of(value) + 2,
        modifier_of(value) == (value - 10) / 2,
{
}

/// Two more points of a score always give one more point of modifier.
pub proof fn lemma_modifier_step(value: int)
    ensures
        modifier_of(value + 2) == modifier_of(value) + 1,
        modifier_of(value) <= modifier_of(value + 1) <= modifier_of(value) + 1,
{
}

/// A raw ability value.
#[derive(Debug, Clone, Copy, PartialEq, Eq)]
pub struct AbilityScore {
    value: isize,
}

impl View for AbilityScore {
    type V = int;

    closed spec fn view(&self) -> int {
        self.value as int
    }
}

impl Default for AbilityScore {
    fn default() -> (score: AbilityScore)
        ensures
            score@ == 10,
    {
        AbilityScore::of(10)
    }
}

impl AbilityScore {
    pub fn of(value: isize) -> (score: AbilityScore)
        ensures
            score@ == value,
    {
        AbilityScore { value }
    }

    pub fn value(&self) -> (value: isize)
        ensures
            value == self@,
    {
        self.value
    }

    pub fn modifier(&self) -> (modifier: isize)
        ensures
            modifier == modifier_of(self@),
    {
        let value: i128 = self.value as i128;
        let halved: i128 = if value < 10 {
            (value - 11) / 2
        } else {
            (value - 10) / 2
        };
        halved as isize
    }
}

/// A score for each of the six abilities.
#[derive(Debug, Clone, Copy, PartialEq, Eq)]
pub struct AbilityScores {
    strength: AbilityScore,
    dexterity: AbilityScore,
    constitution: AbilityScore,
    intelligence: AbilityScore,
    wisdom: AbilityScore,
    charisma: AbilityScore,
}

impl View for AbilityScores {
    type V = Map<Ability, int>;

    closed spec fn view(&self) -> Map<Ability, int> {
        Map::total(
            |ability: Ability|
                match ability {
                    Ability::Strength => self.strength@,
                    Ability::Dexterity => self.dexterity@,
                    Ability::Constitution => self.constitution@,
                    Ability::Intelligence => self.intelligence@,
                    Ability::Wisdom => self.wisdom@,
                    Ability::Charisma => self.charisma@,
                },
        )
    }
}

impl Default for AbilityScores {
    fn default() -> (scores: AbilityScores)
        ensures
            scores@ == Map::total(|ability: Ability| 10int),
    {
        AbilityScores::default()
    }
}

impl AbilityScores {
    /// Every ability at ten.
    pub fn default() -> (scores: AbilityScores)
        ensures
            scores@ == Map::total(|ability: Ability| 10int),
    {
        AbilityScores {
            strength: AbilityScore::of(10),
            dexterity: AbilityScore::of(10),
            constitution: AbilityScore::of(10),
            intelligence: AbilityScore::of(10),
            wisdom: AbilityScore::of(10),
            charisma: AbilityScore::of(10),
        }
    }

    pub fn get(&self, ability: Ability) -> (score: AbilityScore)
        ensures
            score@ == self@[ability],
    {
        match ability {
            Ability::Strength => self.strength,
            Ability::Dexterity => self.dexterity,
            Ability::Constitution => self.constitution,
            Ability::Intelligence => self.intelligence,
            Ability::Wisdom => self.wisdom,
            Ability::Charisma => self.charisma,
        }
    }

    /// The same scores with one of them replaced.
    pub fn with(&self, ability: Ability, score: AbilityScore) -> (scores: AbilityScores)
        ensures
            scores@ == self@.insert(ability, score@),
    {
        let mut new = *self;
        match ability {
            Ability::Strength => new.strength = score,
            Ability::Dexterity => new.dexterity = score,
            Ability::Constitution => new.constitution = score,
            Ability::Intelligence => new.intelligence = score,
            Ability::Wisdom => new.wisdom = score,
            Ability::Charisma => new.charisma = score,
        };
        new
    }
}

/// A sheet of scores knows every ability.
pub proof fn lemma_scores_are_total(scores: AbilityScores, ability: Ability)
    ensures
        scores@.dom().contains(ability),
{
}

/// Replacing one score leaves the other five as they were, and reading back
/// the replaced one gives the new score.
pub proof fn lemma_with_then_get(scores: Map<Ability, int>, ability: Ability, score: int, other: Ability)
    ensures
        scores.insert(ability, score)[ability] == score,
        other != ability ==> scores.insert(ability, score)[other] == scores[other],
{
}

} // verus!
