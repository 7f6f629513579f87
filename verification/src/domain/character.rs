//! The character: scores, classes, features, inventory and hit points.

use crate::domain::ability_score::{Ability, AbilityScore, AbilityScores};
use crate::domain::effect::{effects_view, Effect, EffectView};
use crate::domain::hit_points::{HitPoints, HitPointsView};
use crate::domain::inventory::{Inventory, ItemView};
use crate::domain::limits::fits_isize;
use crate::domain::named::position;
use crate::domain::path::{clone_path, path_view, PathView};
use crate::domain::roll::{Dice, Roll};
use vstd::prelude::*;

verus! {

/// A node of the rule tree: effects of its own, and features below it. The
/// children are kept, and walked, in the order in which they are listed.
#[derive(Debug, PartialEq, Eq)]
pub struct Feature {
    pub children: Vec<(String, Feature)>,
    pub roll: Option<Roll>,
    pub effects: Vec<Effect>,
}

/// What a `Feature` stands for.
pub ghost struct FeatureView {
    pub children: Seq<(Seq<char>, FeatureView)>,
    pub roll: Option<Seq<Dice>>,
    pub effects: Seq<EffectView>,
}

/// The views of a list of named features, in the same order.
pub open spec fn children_view(children: Seq<(String, Feature)>) -> Seq<(Seq<char>, FeatureView)>
    decreases children,
{
    if children.len() == 0 {
        Seq::empty()
    } else {
        children_view(children.drop_last()).push((children.last().0@, children.last().1@))
    }
}

impl View for Feature {
    type V = FeatureView;

    open spec fn view(&self) -> FeatureView
        decreases self,
    {
        FeatureView {
            children: children_view(self.children@),
            roll: match self.roll {
                Some(roll) => Some(roll@),
                None => None,
            },
            effects: effects_view(self.effects@),
        }
    }
}

/// The view of a list of features has a view for each of them, at the same
/// place.
pub proof fn lemma_children_view(children: Seq<(String, Feature)>)
    ensures
        children_view(children).len() == children.len(),
        forall|i: int|
            0 <= i < children.len() ==> #[trigger] children_view(children)[i] == (
                children[i].0@,
                children[i].1@,
            ),
    decreases children.len(),
{
    reveal_with_fuel(children_view, 2);
    if children.len() > 0 {
        lemma_children_view(children.drop_last());
    }
}

/// No name occurs twice among the features.
pub open spec fn distinct_feature_names(children: Seq<(Seq<char>, FeatureView)>) -> bool {
    forall|i: int, j: int|
        0 <= i < j < children.len() ==> (#[trigger] children[i]).0 != (#[trigger] children[j]).0
}

/// No name occurs twice among the features, nor among the children of any
/// feature below them: the features are a mapping from names at every level.
pub open spec fn children_wf(children: Seq<(Seq<char>, FeatureView)>) -> bool
    decreases children, 0int,
{
    &&& distinct_feature_names(children)
    &&& forall|i: int| 0 <= i < children.len() ==> (#[trigger] children[i]).1.wf()
}

impl FeatureView {
    /// Names are unique among the children of this feature and of every
    /// feature below it.
    pub open spec fn wf(self) -> bool
        decreases self, 1int,
    {
        children_wf(self.children)
    }
}

impl Feature {
    /// Names are unique among the children of this feature and of every
    /// feature below it.
    pub open spec fn wf(self) -> bool {
        self@.wf()
    }
}

/// Among features with unique names, a name leads to one feature only.
pub proof fn lemma_name_finds_one_feature(
    children: Seq<(Seq<char>, FeatureView)>,
    first: int,
    second: int,
)
    requires
        distinct_feature_names(children),
        0 <= first < children.len(),
        0 <= second < children.len(),
        children[first].0 == children[second].0,
    ensures
        first == second,
{
    if first < second {
        assert(children[first].0 != children[second].0);
    } else if second < first {
        assert(children[second].0 != children[first].0);
    }
}

/// An effect with the names of the features that lead to it.
pub type TaggedEffect = (PathView, EffectView);

/// The same path before each of the effects.
pub open spec fn tag_all(path: PathView, effects: Seq<EffectView>) -> Seq<TaggedEffect> {
    Seq::new(effects.len(), |i: int| (path, effects[i]))
}

impl FeatureView {
    /// The effects of this feature and of all features below it, each with
    /// the path of the feature that has it: first the feature's own, then
    /// those of each child in turn.
    pub open spec fn all_effects(self, path: PathView) -> Seq<TaggedEffect>
        decreases self, 1int,
    {
        tag_all(path, self.effects) + children_effects(self.children, path)
    }
}

/// The effects of each of the features in turn, where `path` leads to their
/// parent.
pub open spec fn children_effects(children: Seq<(Seq<char>, FeatureView)>, path: PathView) -> Seq<
    TaggedEffect,
>
    decreases children, 0int,
{
    if children.len() == 0 {
        Seq::empty()
    } else {
        children_effects(children.drop_last(), path) + children.last().1.all_effects(
            path.push(children.last().0),
        )
    }
}

/// Every effect of a feature is found under a path that begins with the
/// path of the feature.
pub proof fn lemma_all_effects_paths(feature: FeatureView, path: PathView)
    ensures
        forall|i: int|
            0 <= i < feature.all_effects(path).len() ==> path.is_prefix_of(
                (#[trigger] feature.all_effects(path)[i]).0,
            ),
    decreases feature, 1int,
{
    lemma_children_effects_paths(feature.children, path);
    let own = tag_all(path, feature.effects);
    let below = children_effects(feature.children, path);
    assert(path.is_prefix_of(path)) by {
        assert(path.subrange(0, path.len() as int) == path);
    }
    assert forall|i: int| 0 <= i < feature.all_effects(path).len() implies path.is_prefix_of(
        (#[trigger] feature.all_effects(path)[i]).0,
    ) by {
        if i >= own.len() {
            assert(feature.all_effects(path)[i] == below[i - own.len()]);
        }
    }
}

/// Every effect of the children of a feature is found under a path that
/// begins with the path of the feature and goes on from there.
pub proof fn lemma_children_effects_paths(children: Seq<(Seq<char>, FeatureView)>, path: PathView)
    ensures
        forall|i: int|
            0 <= i < children_effects(children, path).len() ==> path.is_prefix_of(
                (#[trigger] children_effects(children, path)[i]).0,
            ) && path.len() < children_effects(children, path)[i].0.len(),
    decreases children, 0int,
{
    if children.len() > 0 {
        let earlier = children_effects(children.drop_last(), path);
        let longer = path.push(children.last().0);
        let last = children.last().1.all_effects(longer);
        lemma_children_effects_paths(children.drop_last(), path);
        lemma_all_effects_paths(children.last().1, longer);
        assert forall|i: int| 0 <= i < children_effects(children, path).len() implies path.is_prefix_of(
            (#[trigger] children_effects(children, path)[i]).0,
        ) && path.len() < children_effects(children, path)[i].0.len() by {
            if i >= earlier.len() {
                let found = last[i - earlier.len()].0;
                assert(children_effects(children, path)[i] == last[i - earlier.len()]);
                assert(longer.is_prefix_of(found));
                assert(path == found.subrange(0, path.len() as int)) by {
                    assert(longer == found.subrange(0, longer.len() as int));
                    assert(path == longer.subrange(0, path.len() as int));
                }
            }
        }
    }
}

/// The views of a list of effects with their paths.
pub open spec fn tagged_view(effects: Seq<(Vec<String>, Effect)>) -> Seq<TaggedEffect> {
    Seq::new(effects.len(), |i: int| (path_view(effects[i].0@), effects[i].1@))
}

/// The effects of each of the features in turn.
fn effects_of_children(children: &Vec<(String, Feature)>, path: &Vec<String>) -> (effects: Vec<
    (Vec<String>, Effect),
>)
    ensures
        tagged_view(effects@) == children_effects(children_view(children@), path_view(path@)),
    decreases children, 0int,
{
    let mut effects: Vec<(Vec<String>, Effect)> = Vec::new();
    let mut i: usize = 0;
    assert(children@.take(0) == Seq::<(String, Feature)>::empty());
    while i < children.len()
        invariant
            i <= children.len(),
            tagged_view(effects@) == children_effects(
                children_view(children@.take(i as int)),
                path_view(path@),
            ),
        decreases children.len() - i,
    {
        let mut child_path = clone_path(path);
        child_path.push(children[i].0.clone());
        let mut found = children[i].1.all_effects(child_path);
        proof {
            let before = children@.take(i as int);
            let now = children@.take(i + 1);
            assert(now.drop_last() == before);
            assert(now.last() == children@[i as int]);
            assert(path_view(path@.push(children@[i as int].0)) == path_view(path@).push(
                children@[i as int].0@,
            ));
            reveal_with_fuel(children_view, 2);
            reveal_with_fuel(children_effects, 2);
            assert(children_view(now).drop_last() == children_view(before));
            assert(tagged_view(effects@ + found@) == tagged_view(effects@) + tagged_view(found@));
        }
        effects.append(&mut found);
        i += 1;
    }
    assert(children@.take(children.len() as int) == children@);
    effects
}

impl Feature {
    /// The effects of this feature and of all features below it, each with
    /// the path of the feature that has it. `path` is the path of this
    /// feature itself.
    pub fn all_effects(&self, path: Vec<String>) -> (effects: Vec<(Vec<String>, Effect)>)
        ensures
            tagged_view(effects@) == self@.all_effects(path_view(path@)),
        decreases self, 1int,
    {
        let mut effects: Vec<(Vec<String>, Effect)> = Vec::new();
        let mut i: usize = 0;
        while i < self.effects.len()
            invariant
                i <= self.effects.len(),
                effects@.len() == i,
                tagged_view(effects@) == tag_all(
                    path_view(path@),
                    effects_view(self.effects@.take(i as int)),
                ),
            decreases self.effects.len() - i,
        {
            let ghost before = effects@;
            let tag = clone_path(&path);
            let effect = self.effects[i].clone();
            effects.push((tag, effect));
            assert forall|j: int| 0 <= j <= i implies tagged_view(effects@)[j] == tag_all(
                path_view(path@),
                effects_view(self.effects@.take(i + 1)),
            )[j] by {
                if j < i {
                    assert(effects@[j] == before[j]);
                    assert(tagged_view(before)[j] == tag_all(
                        path_view(path@),
                        effects_view(self.effects@.take(i as int)),
                    )[j]);
                }
            }
            assert(tagged_view(effects@) == tag_all(
                path_view(path@),
                effects_view(self.effects@.take(i + 1)),
            ));
            i += 1;
        }
        assert(self.effects@.take(self.effects.len() as int) == self.effects@);
        let mut below = effects_of_children(&self.children, &path);
        assert(tagged_view(effects@ + below@) == tagged_view(effects@) + tagged_view(below@));
        effects.append(&mut below);
        effects
    }
}

/// A copy of a list of named features.
fn clone_children(children: &Vec<(String, Feature)>) -> (copy: Vec<(String, Feature)>)
    ensures
        children_view(copy@) == children_view(children@),
    decreases children, 0int,
{
    let mut copy: Vec<(String, Feature)> = Vec::new();
    let mut i: usize = 0;
    while i < children.len()
        invariant
            i <= children.len(),
            copy@.len() == i,
            forall|j: int|
                0 <= j < i ==> (#[trigger] copy@[j]).0@ == children@[j].0@ && copy@[j].1@
                    == children@[j].1@,
        decreases children.len() - i,
    {
        let name = children[i].0.clone();
        let feature = children[i].1.clone();
        copy.push((name, feature));
        i += 1;
    }
    proof {
        lemma_children_view(copy@);
        lemma_children_view(children@);
        assert(children_view(copy@) =~= children_view(children@));
    }
    copy
}

/// A copy of a list of effects.
fn clone_effects(effects: &Vec<Effect>) -> (copy: Vec<Effect>)
    ensures
        effects_view(copy@) == effects_view(effects@),
{
    let mut copy: Vec<Effect> = Vec::new();
    let mut i: usize = 0;
    while i < effects.len()
        invariant
            i <= effects.len(),
            copy@.len() == i,
            forall|j: int| 0 <= j < i ==> (#[trigger] copy@[j])@ == effects@[j]@,
        decreases effects.len() - i,
    {
        copy.push(effects[i].clone());
        i += 1;
    }
    assert(effects_view(copy@) =~= effects_view(effects@));
    copy
}

impl Clone for Feature {
    fn clone(&self) -> (copy: Feature)
        ensures
            copy@ == self@,
            copy.wf() == self.wf(),
        decreases self, 1int,
    {
        Feature {
            children: clone_children(&self.children),
            roll: match &self.roll {
                Some(roll) => Some(roll.clone()),
                None => None,
            },
            effects: clone_effects(&self.effects),
        }
    }
}

/// A class that the character has taken, with the level reached in it.
#[derive(Debug, PartialEq, Eq)]
pub struct CharacterClass {
    name: String,
    level: isize,
}

impl View for CharacterClass {
    type V = (Seq<char>, int);

    closed spec fn view(&self) -> (Seq<char>, int) {
        (self.name@, self.level as int)
    }
}

impl Clone for CharacterClass {
    fn clone(&self) -> (copy: CharacterClass)
        ensures
            copy@ == self@,
    {
        CharacterClass { name: self.name.clone(), level: self.level }
    }
}

impl CharacterClass {
    pub fn new(name: String, level: isize) -> (class: CharacterClass)
        ensures
            class@ == (name@, level as int),
    {
        CharacterClass { name, level }
    }

    pub fn name(&self) -> (name: &String)
        ensures
            name@ == self@.0,
    {
        &self.name
    }

    pub fn level(&self) -> (level: isize)
        ensures
            level == self@.1,
    {
        self.level
    }
}

/// The views of a list of classes.
pub open spec fn classes_view(classes: Seq<CharacterClass>) -> Seq<(Seq<char>, int)> {
    Seq::new(classes.len(), |i: int| classes[i]@)
}

/// The sum of the levels of a list of classes.
pub open spec fn sum_of_levels(classes: Seq<(Seq<char>, int)>) -> int
    decreases classes.len(),
{
    if classes.len() == 0 {
        0
    } else {
        sum_of_levels(classes.drop_last()) + classes.last().1
    }
}

/// The proficiency bonus that a total level gives.
pub open spec fn proficiency_for(level: int) -> int {
    if level < 5 {
        2
    } else if level < 9 {
        3
    } else if level < 13 {
        4
    } else if level < 17 {
        5
    } else if level <= 20 {
        6
    } else {
        level / 4 + 2
    }
}

/// The proficiency bonus is at least two and never falls as the level rises.
pub proof fn lemma_proficiency_rises(lower: int, higher: int)
    requires
        lower <= higher,
    ensures
        2 <= proficiency_for(lower) <= proficiency_for(higher),
{
}

/// The sum of levels of a list that ends with one more class.
pub proof fn lemma_sum_of_levels_push(classes: Seq<(Seq<char>, int)>, class: (Seq<char>, int))
    ensures
        sum_of_levels(classes.push(class)) == sum_of_levels(classes) + class.1,
{
    assert(classes.push(class).drop_last() == classes);
}

/// A copy of a list of classes.
fn clone_classes(classes: &Vec<CharacterClass>) -> (copy: Vec<CharacterClass>)
    ensures
        classes_view(copy@) == classes_view(classes@),
{
    let mut copy: Vec<CharacterClass> = Vec::new();
    let mut i: usize = 0;
    while i < classes.len()
        invariant
            i <= classes.len(),
            copy@.len() == i,
            forall|j: int| 0 <= j < i ==> (#[trigger] copy@[j])@ == classes@[j]@,
        decreases classes.len() - i,
    {
        copy.push(classes[i].clone());
        i += 1;
    }
    assert(classes_view(copy@) =~= classes_view(classes@));
    copy
}

/// A character as it is kept between sessions.
#[derive(Debug, PartialEq, Eq)]
pub struct Character {
    ability_scores: AbilityScores,
    classes: Vec<CharacterClass>,
    features: Vec<(String, Feature)>,
    inventory: Inventory,
    hit_points: HitPoints,
}

/// What a `Character` stands for.
pub ghost struct CharacterView {
    pub ability_scores: Map<Ability, int>,
    pub classes: Seq<(Seq<char>, int)>,
    pub features: Seq<(Seq<char>, FeatureView)>,
    pub inventory: Map<Seq<char>, ItemView>,
    pub hit_points: HitPointsView,
}

impl CharacterView {
    /// The sum of the levels in all classes.
    pub open spec fn total_level(self) -> int {
        sum_of_levels(self.classes)
    }

    /// The proficiency bonus that the total level gives.
    pub open spec fn proficiency_bonus(self) -> int {
        proficiency_for(self.total_level())
    }

    /// The effects of all features, each with the path of the feature that
    /// has it.
    pub open spec fn all_effects(self) -> Seq<TaggedEffect> {
        children_effects(self.features, Seq::empty())
    }

    /// Names are unique among the character's features at every level.
    pub open spec fn features_wf(self) -> bool {
        children_wf(self.features)
    }
}

impl View for Character {
    type V = CharacterView;

    closed spec fn view(&self) -> CharacterView {
        CharacterView {
            ability_scores: self.ability_scores@,
            classes: classes_view(self.classes@),
            features: children_view(self.features@),
            inventory: self.inventory@,
            hit_points: self.hit_points@,
        }
    }
}

impl Clone for Character {
    fn clone(&self) -> (copy: Character)
        ensures
            copy@ == self@,
            copy.wf() == self.wf(),
            copy.spec_inventory().wf() == self.spec_inventory().wf(),
            copy.spec_hit_points() == self.spec_hit_points(),
    {
        Character {
            ability_scores: self.ability_scores,
            classes: clone_classes(&self.classes),
            features: clone_children(&self.features),
            inventory: self.inventory.clone(),
            hit_points: self.hit_points,
        }
    }
}

impl Default for Character {
    fn default() -> (character: Character)
        ensures
            character@ == (CharacterView {
                ability_scores: Map::total(|ability: Ability| 10int),
                classes: Seq::empty(),
                features: Seq::empty(),
                inventory: Map::empty(),
                hit_points: HitPointsView { current: 0, max: 0, temporary: 0 },
            }),
            character.spec_inventory().wf(),
            character.wf(),
    {
        let character = Character {
            ability_scores: AbilityScores::default(),
            classes: Vec::new(),
            features: Vec::new(),
            inventory: Inventory::default(),
            hit_points: HitPoints::default(),
        };
        assert(classes_view(character.classes@) =~= Seq::empty());
        character
    }
}

impl Character {
    /// The inventory that the character carries.
    pub closed spec fn spec_inventory(self) -> Inventory {
        self.inventory
    }

    /// The character's hit points.
    pub closed spec fn spec_hit_points(self) -> HitPoints {
        self.hit_points
    }

    /// Names are unique among the character's features and within its
    /// inventory, at every level.
    pub open spec fn wf(self) -> bool {
        self@.features_wf() && self.spec_inventory().wf()
    }

    /// The character's view shows the inventory and the hit points as they
    /// are.
    pub proof fn lemma_view_of_parts(self)
        ensures
            self@.inventory == self.spec_inventory()@,
            self@.hit_points == self.spec_hit_points()@,
    {
    }

    pub fn new(
        ability_scores: AbilityScores,
        classes: Vec<CharacterClass>,
        features: Vec<(String, Feature)>,
        inventory: Inventory,
        hit_points: HitPoints,
    ) -> (character: Character)
        ensures
            character@ == (CharacterView {
                ability_scores: ability_scores@,
                classes: classes_view(classes@),
                features: children_view(features@),
                inventory: inventory@,
                hit_points: hit_points@,
            }),
            character.spec_inventory() == inventory,
            character.spec_hit_points() == hit_points,
            character.wf() == (children_wf(children_view(features@)) && inventory.wf()),
    {
        Character { ability_scores, classes, features, inventory, hit_points }
    }

    /// Takes the character apart again.
    pub fn into_parts(self) -> (parts: (
        AbilityScores,
        Vec<CharacterClass>,
        Vec<(String, Feature)>,
        Inventory,
        HitPoints,
    ))
        ensures
            self@ == (CharacterView {
                ability_scores: parts.0@,
                classes: classes_view(parts.1@),
                features: children_view(parts.2@),
                inventory: parts.3@,
                hit_points: parts.4@,
            }),
            parts.3 == self.spec_inventory(),
            parts.4 == self.spec_hit_points(),
    {
        (self.ability_scores, self.classes, self.features, self.inventory, self.hit_points)
    }

    /// The effects of all features, each with the path of the feature that
    /// has it: the features in the order in which they are listed, each
    /// followed by what lies below it.
    pub fn all_effects(&self) -> (effects: Vec<(Vec<String>, Effect)>)
        ensures
            tagged_view(effects@) == self@.all_effects(),
    {
        let root: Vec<String> = Vec::new();
        assert(path_view(root@) == Seq::<Seq<char>>::empty());
        effects_of_children(&self.features, &root)
    }

    pub fn get_ability_score(&self, ability: Ability) -> (score: AbilityScore)
        ensures
            score@ == self@.ability_scores[ability],
    {
        self.ability_scores.get(ability)
    }

    /// The inventory, to be changed in place.
    pub fn inventory(&mut self) -> (inventory: &mut Inventory)
        ensures
            *inventory == old(self).spec_inventory(),
            inventory@ == old(self)@.inventory,
            final(self).spec_inventory() == *final(inventory),
            final(self).spec_hit_points() == old(self).spec_hit_points(),
            final(self)@ == (CharacterView { inventory: final(inventory)@, ..old(self)@ }),
    {
        &mut self.inventory
    }

    /// The hit points, to be changed in place.
    pub fn hit_points(&mut self) -> (hit_points: &mut HitPoints)
        ensures
            *hit_points == old(self).spec_hit_points(),
            hit_points@ == old(self)@.hit_points,
            final(self).spec_hit_points() == *final(hit_points),
            final(self).spec_inventory() == old(self).spec_inventory(),
            final(self)@ == (CharacterView { hit_points: final(hit_points)@, ..old(self)@ }),
    {
        &mut self.hit_points
    }

    /// The same character with another inventory.
    pub fn with_inventory(&self, inventory: Inventory) -> (character: Character)
        ensures
            character@ == (CharacterView { inventory: inventory@, ..self@ }),
            character.spec_inventory() == inventory,
            character@.features_wf() == self@.features_wf(),
            self.wf() && inventory.wf() ==> character.wf(),
    {
        Character {
            ability_scores: self.ability_scores,
            classes: clone_classes(&self.classes),
            features: clone_children(&self.features),
            inventory,
            hit_points: self.hit_points,
        }
    }

    /// The same character with other hit points.
    pub fn with_hit_points(&self, hit_points: HitPoints) -> (character: Character)
        ensures
            character@ == (CharacterView { hit_points: hit_points@, ..self@ }),
            character.spec_hit_points() == hit_points,
            character.spec_inventory().wf() == self.spec_inventory().wf(),
            character.wf() == self.wf(),
    {
        Character {
            ability_scores: self.ability_scores,
            classes: clone_classes(&self.classes),
            features: clone_children(&self.features),
            inventory: self.inventory.clone(),
            hit_points,
        }
    }

    /// The sum of the levels in all classes, with room to spare.
    fn wide_total_level(&self) -> (sum: i128)
        ensures
            sum == self@.total_level(),
    {
        let mut sum: i128 = 0;
        let mut i: usize = 0;
        assert(classes_view(self.classes@).take(0) == Seq::<(Seq<char>, int)>::empty());
        while i < self.classes.len()
            invariant
                i <= self.classes.len(),
                sum == sum_of_levels(classes_view(self.classes@).take(i as int)),
                -(i as int) * 0x8000_0000_0000_0000 <= sum <= (i as int) * 0x8000_0000_0000_0000,
            decreases self.classes.len() - i,
        {
            proof {
                let classes = classes_view(self.classes@);
                assert(classes.take(i + 1) == classes.take(i as int).push(classes[i as int]));
                lemma_sum_of_levels_push(classes.take(i as int), classes[i as int]);
            }
            sum = sum + self.classes[i].level as i128;
            i += 1;
        }
        assert(classes_view(self.classes@).take(self.classes.len() as int) == classes_view(
            self.classes@,
        ));
        sum
    }

    /// The sum of the levels in all classes.
    pub fn total_level(&self) -> (level: isize)
        requires
            fits_isize(self@.total_level()),
        ensures
            level == self@.total_level(),
    {
        self.wide_total_level() as isize
    }

    /// The proficiency bonus that the total level gives.
    pub fn proficiency_bonus(&self) -> (bonus: isize)
        requires
            fits_isize(self@.total_level()),
        ensures
            bonus == self@.proficiency_bonus(),
    {
        let total_level = self.total_level();
        if total_level < 5 {
            2
        } else if total_level < 9 {
            3
        } else if total_level < 13 {
            4
        } else if total_level < 17 {
            5
        } else if total_level <= 20 {
            6
        } else {
            total_level / 4 + 2
        }
    }

    /// Whether the total level can be held in an `isize`.
    pub fn has_total_level(&self) -> (fits: bool)
        ensures
            fits == fits_isize(self@.total_level()),
    {
        let sum = self.wide_total_level();
        isize::MIN as i128 <= sum && sum <= isize::MAX as i128
    }

    /// The first of the character's own features that is called `name`.
    pub fn get_feature(&self, name: &String) -> (found: Option<&Feature>)
        ensures
            match found {
                Some(feature) => exists|index: int|
                    #![trigger self@.features[index]]
                    0 <= index < self@.features.len() && self@.features[index] == (name@, feature@)
                        && forall|j: int|
                        0 <= j < index ==> (#[trigger] self@.features[j]).0 != name@,
                None => forall|j: int|
                    0 <= j < self@.features.len() ==> (#[trigger] self@.features[j]).0 != name@,
            },
            self@.features_wf() ==> (found matches Some(feature) ==> forall|j: int|
                0 <= j < self@.features.len() && (#[trigger] self@.features[j]).0 == name@
                    ==> self@.features[j].1 == feature@),
    {
        proof {
            lemma_children_view(self.features@);
        }
        let index = position(&self.features, name);
        if index < self.features.len() {
            assert(self@.features[index as int] == (name@, self.features@[index as int].1@));
            proof {
                if self@.features_wf() {
                    assert forall|j: int|
                        0 <= j < self@.features.len() && (#[trigger] self@.features[j]).0
                            == name@ implies self@.features[j].1 == self.features@[index as int].1@ by {
                        lemma_name_finds_one_feature(self@.features, j, index as int);
                    }
                }
            }
            Some(&self.features[index].1)
        } else {
            None
        }
    }

}

} // verus!
