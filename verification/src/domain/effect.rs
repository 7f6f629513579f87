//! Effects: the bonuses that features grant, and the rolls that they are
//! granted to.

use crate::domain::ability_score::Ability;
use crate::domain::path::{clone_path, path_view, starts_with, PathView};
use crate::domain::roll::{Dice, Roll};
use vstd::prelude::*;

verus! {

/// The reach of an attack.
#[derive(Debug, Clone, Copy, PartialEq, Eq, Structural)]
pub enum Range {
    Melee,
    Ranged { normal: isize, long: isize },
}

/// A change to an ability score.
#[derive(Debug, Clone, Copy, PartialEq, Eq, Structural)]
pub enum AbilityScoreBonus {
    Modifier { modifier: isize },
    Become { value: isize },
}

/// The rolls that an effect applies to.
#[derive(Debug, PartialEq, Eq)]
pub struct RollScope {
    pub path: Option<Vec<String>>,
    pub ability: Option<Ability>,
    pub range: Option<Range>,
}

/// What a `RollScope` stands for.
pub ghost struct RollScopeView {
    pub path: Option<PathView>,
    pub ability: Option<Ability>,
    pub range: Option<Range>,
}

impl RollScopeView {
    /// A scope applies to the rolls whose path begins with the scope's path.
    /// A scope without a path applies to none.
    pub open spec fn matches(self, path: PathView) -> bool {
        match self.path {
            Some(prefix) => prefix.is_prefix_of(path),
            None => false,
        }
    }
}

impl View for RollScope {
    type V = RollScopeView;

    open spec fn view(&self) -> RollScopeView {
        RollScopeView {
            path: match self.path {
                Some(path) => Some(path_view(path@)),
                None => None,
            },
            ability: self.ability,
            range: self.range,
        }
    }
}

impl Default for RollScope {
    fn default() -> (scope: RollScope)
        ensures
            scope@ == (RollScopeView { path: None, ability: None, range: None }),
    {
        RollScope { path: None, ability: None, range: None }
    }
}

impl Clone for RollScope {
    fn clone(&self) -> (copy: RollScope)
        ensures
            copy@ == self@,
    {
        RollScope {
            path: match &self.path {
                Some(path) => Some(clone_path(path)),
                None => None,
            },
            ability: self.ability,
            range: self.range,
        }
    }
}

impl RollScope {
    /// Whether the scope applies to the roll that `path` asks for.
    pub fn matches(&self, path: &Vec<String>) -> (applies: bool)
        ensures
            applies == self@.matches(path_view(path@)),
    {
        match &self.path {
            Some(scope) => starts_with(path, scope),
            None => false,
        }
    }
}

/// A scope applies to the very path that it names.
pub proof fn lemma_scope_matches_own_path(scope: RollScopeView)
    requires
        scope.path is Some,
    ensures
        scope.matches(scope.path->0),
{
    let path = scope.path->0;
    assert(path.subrange(0, path.len() as int) == path);
}

/// A scope that applies to a path applies to every path that begins with it.
pub proof fn lemma_scope_matches_longer_path(scope: RollScopeView, path: PathView, more: PathView)
    requires
        scope.matches(path),
    ensures
        scope.matches(path + more),
{
    let prefix = scope.path->0;
    assert(prefix == (path + more).subrange(0, prefix.len() as int));
}

/// A scope does not apply to a path that differs from the scope's path at a
/// place that both have, nor to one that is shorter than the scope's path.
pub proof fn lemma_scope_rejects_other_path(scope: RollScopeView, path: PathView, place: int)
    requires
        scope.path matches Some(prefix) && (prefix.len() > path.len() || (0 <= place < prefix.len()
            && place < path.len() && prefix[place] != path[place])),
    ensures
        !scope.matches(path),
{
    let prefix = scope.path->0;
    if prefix.len() <= path.len() {
        assert(path.subrange(0, prefix.len() as int)[place] == path[place]);
    }
}

/// What an effect adds to a roll.
#[derive(Debug, PartialEq, Eq)]
pub enum RollBonus {
    Modifier(isize),
    Roll(Roll),
    Proficiency,
    Ability(Ability),
}

/// What a `RollBonus` stands for.
pub ghost enum RollBonusView {
    Modifier(int),
    Roll(Seq<Dice>),
    Proficiency,
    Ability(Ability),
}

impl View for RollBonus {
    type V = RollBonusView;

    open spec fn view(&self) -> RollBonusView {
        match self {
            RollBonus::Modifier(modifier) => RollBonusView::Modifier(*modifier as int),
            RollBonus::Roll(roll) => RollBonusView::Roll(roll@),
            RollBonus::Proficiency => RollBonusView::Proficiency,
            RollBonus::Ability(ability) => RollBonusView::Ability(*ability),
        }
    }
}

impl Clone for RollBonus {
    fn clone(&self) -> (copy: RollBonus)
        ensures
            copy@ == self@,
    {
        match self {
            RollBonus::Modifier(modifier) => RollBonus::Modifier(*modifier),
            RollBonus::Roll(roll) => RollBonus::Roll(roll.clone()),
            RollBonus::Proficiency => RollBonus::Proficiency,
            RollBonus::Ability(ability) => RollBonus::Ability(*ability),
        }
    }
}

/// A rule that a feature brings with it.
#[derive(Debug, PartialEq, Eq)]
pub enum Effect {
    Roll { bonus: RollBonus, scope: RollScope },
}

/// What an `Effect` stands for.
pub ghost enum EffectView {
    Roll { bonus: RollBonusView, scope: RollScopeView },
}

impl View for Effect {
    type V = EffectView;

    open spec fn view(&self) -> EffectView {
        match self {
            Effect::Roll { bonus, scope } => EffectView::Roll { bonus: bonus@, scope: scope@ },
        }
    }
}

impl Clone for Effect {
    fn clone(&self) -> (copy: Effect)
        ensures
            copy@ == self@,
    {
        match self {
            Effect::Roll { bonus, scope } => Effect::Roll { bonus: bonus.clone(), scope: scope.clone() },
        }
    }
}

/// The views of a list of effects.
pub open spec fn effects_view(effects: Seq<Effect>) -> Seq<EffectView> {
    Seq::new(effects.len(), |i: int| effects[i]@)
}

} // verus!
