//! Dice, and the rolls that a character makes with them.

use crate::domain::ability_score::{modifier_of, Ability};
use crate::domain::character::{
    children_effects, tag_all, Character, CharacterView, FeatureView, TaggedEffect,
};
use crate::domain::effect::{Effect, EffectView, RollBonus, RollBonusView};
use crate::domain::limits::fits_isize;
use crate::domain::path::{clone_path, is_path_before, path_before, path_view, PathView};
use rand::Rng;
use vstd::prelude::*;

verus! {

/// A number of dice of one kind.
#[derive(Debug, Clone, Copy, PartialEq, Eq, Structural)]
pub struct Dice {
    pub count: isize,
    pub sides: isize,
}

impl Dice {
    /// How many results a throw gives: none for a count below one.
    pub open spec fn throws(self) -> int {
        if self.count < 0 {
            0
        } else {
            self.count as int
        }
    }

    /// Whether the dice can be thrown: whatever is thrown at least once
    /// needs at least one side.
    pub open spec fn can_roll(self) -> bool {
        self.count > 0 ==> self.sides >= 1
    }
}

/// The dice of one roll.
#[derive(Debug, PartialEq, Eq)]
pub struct Roll {
    dice: Vec<Dice>,
}

impl View for Roll {
    type V = Seq<Dice>;

    closed spec fn view(&self) -> Seq<Dice> {
        self.dice@
    }
}

impl Clone for Roll {
    fn clone(&self) -> (copy: Roll)
        ensures
            copy@ == self@,
    {
        let mut dice: Vec<Dice> = Vec::new();
        let mut i: usize = 0;
        while i < self.dice.len()
            invariant
                i <= self.dice.len(),
                dice@ == self.dice@.take(i as int),
            decreases self.dice.len() - i,
        {
            dice.push(self.dice[i]);
            assert(self.dice@.take(i + 1) == self.dice@.take(i as int).push(self.dice@[i as int]));
            i += 1;
        }
        assert(self.dice@.take(self.dice.len() as int) == self.dice@);
        Roll { dice }
    }
}

impl Roll {
    pub fn new(dice: Vec<Dice>) -> (roll: Roll)
        ensures
            roll@ == dice@,
    {
        Roll { dice }
    }

    pub fn dice(&self) -> (dice: &Vec<Dice>)
        ensures
            dice@ == self@,
    {
        &self.dice
    }
}

/// The dice that were thrown, with what each of them showed.
#[derive(Debug, PartialEq, Eq)]
pub struct RolledDice {
    dice: Dice,
    results: Vec<isize>,
}

/// What a `RolledDice` stands for.
pub ghost struct RolledDiceView {
    pub dice: Dice,
    pub results: Seq<isize>,
}

impl RolledDiceView {
    /// Whether this can come of throwing `dice`: one result for each of
    /// them, each from one to the number of sides.
    pub open spec fn is_throw_of(self, dice: Dice) -> bool {
        &&& self.dice == dice
        &&& self.results.len() == dice.throws()
        &&& forall|i: int| 0 <= i < self.results.len() ==> 1 <= #[trigger] self.results[i] <= dice.sides
    }
}

impl View for RolledDice {
    type V = RolledDiceView;

    closed spec fn view(&self) -> RolledDiceView {
        RolledDiceView { dice: self.dice, results: self.results@ }
    }
}

impl Clone for RolledDice {
    fn clone(&self) -> (copy: RolledDice)
        ensures
            copy@ == self@,
    {
        let results = self.results.clone();
        assert(results@ =~= self.results@);
        RolledDice { dice: self.dice, results }
    }
}

impl RolledDice {
    pub fn new(dice: Dice, results: Vec<isize>) -> (rolled: RolledDice)
        ensures
            rolled@ == (RolledDiceView { dice, results: results@ }),
    {
        RolledDice { dice, results }
    }

    pub fn dice(&self) -> (dice: Dice)
        ensures
            dice == self@.dice,
    {
        self.dice
    }

    pub fn results(&self) -> (results: &Vec<isize>)
        ensures
            results@ == self@.results,
    {
        &self.results
    }
}

/// The generator of random numbers that `rand` keeps for each thread. It is
/// handed on to `rand`'s own functions and never looked into.
#[verifier::external_type_specification]
#[verifier::external_body]
pub struct ExThreadRng(rand::rngs::ThreadRng);

/// `rand::thread_rng` hands out the generator of the current thread. Nothing
/// is claimed of it.
pub assume_specification[ rand::thread_rng ]() -> (generator: rand::rngs::ThreadRng)
;

/// Calls `rand::Rng::gen_range` with the inclusive range from `low` to
/// `high`. The range must not be empty, or the call panics. Whatever number
/// comes out lies in the range; which one is not said, and two calls may
/// differ.
#[verifier::external_body]
fn gen_range_inclusive(generator: &mut rand::rngs::ThreadRng, low: isize, high: isize) -> (number: isize)
    requires
        low <= high,
    ensures
        low <= number <= high,
{
    generator.gen_range(low..=high)
}

impl Dice {
    /// Throws the dice, each on its own. Dice with a count below one give no
    /// results.
    pub fn roll(&self) -> (rolled: RolledDice)
        requires
            self.can_roll(),
        ensures
            rolled@.is_throw_of(*self),
    {
        let mut generator = rand::thread_rng();
        let mut results: Vec<isize> = Vec::new();
        let mut thrown: isize = 0;
        while thrown < self.count
            invariant
                0 <= thrown,
                thrown <= self.count || thrown == 0,
                self.can_roll(),
                results@.len() == thrown,
                forall|i: int| 0 <= i < results@.len() ==> 1 <= #[trigger] results@[i] <= self.sides,
            decreases self.count - thrown,
        {
            let face = gen_range_inclusive(&mut generator, 1, self.sides);
            results.push(face);
            thrown += 1;
        }
        RolledDice { dice: *self, results }
    }
}

/// The views of a list of thrown dice.
pub open spec fn rolled_view(rolled: Seq<RolledDice>) -> Seq<RolledDiceView> {
    Seq::new(rolled.len(), |i: int| rolled[i]@)
}

/// What one effect adds to a roll.
#[derive(Debug, PartialEq, Eq)]
pub struct EffectResult {
    path: Vec<String>,
    rolled_dice: Vec<RolledDice>,
    bonus: isize,
}

/// What an `EffectResult` stands for.
pub ghost struct EffectResultView {
    pub path: PathView,
    pub rolled_dice: Seq<RolledDiceView>,
    pub bonus: int,
}

impl View for EffectResult {
    type V = EffectResultView;

    closed spec fn view(&self) -> EffectResultView {
        EffectResultView {
            path: path_view(self.path@),
            rolled_dice: rolled_view(self.rolled_dice@),
            bonus: self.bonus as int,
        }
    }
}

/// A copy of a list of thrown dice.
fn clone_rolled(rolled: &Vec<RolledDice>) -> (copy: Vec<RolledDice>)
    ensures
        rolled_view(copy@) == rolled_view(rolled@),
{
    let mut copy: Vec<RolledDice> = Vec::new();
    let mut i: usize = 0;
    while i < rolled.len()
        invariant
            i <= rolled.len(),
            copy@.len() == i,
            forall|j: int| 0 <= j < i ==> (#[trigger] copy@[j])@ == rolled@[j]@,
        decreases rolled.len() - i,
    {
        copy.push(rolled[i].clone());
        i += 1;
    }
    assert(rolled_view(copy@) =~= rolled_view(rolled@));
    copy
}

impl Clone for EffectResult {
    fn clone(&self) -> (copy: EffectResult)
        ensures
            copy@ == self@,
    {
        EffectResult {
            path: clone_path(&self.path),
            rolled_dice: clone_rolled(&self.rolled_dice),
            bonus: self.bonus,
        }
    }
}

impl EffectResult {
    pub fn new(path: Vec<String>, rolled_dice: Vec<RolledDice>, bonus: isize) -> (result: EffectResult)
        ensures
            result@ == (EffectResultView {
                path: path_view(path@),
                rolled_dice: rolled_view(rolled_dice@),
                bonus: bonus as int,
            }),
    {
        EffectResult { path, rolled_dice, bonus }
    }

    /// The path of the feature that the effect comes from.
    pub fn path(&self) -> (path: &Vec<String>)
        ensures
            path_view(path@) == self@.path,
    {
        &self.path
    }

    /// The dice that were thrown for the effect.
    pub fn rolled_dice(&self) -> (rolled_dice: &Vec<RolledDice>)
        ensures
            rolled_view(rolled_dice@) == self@.rolled_dice,
    {
        &self.rolled_dice
    }

    /// What the effect adds without throwing dice.
    pub fn bonus(&self) -> (bonus: isize)
        ensures
            bonus == self@.bonus,
    {
        self.bonus
    }
}

/// The views of a list of results.
pub open spec fn results_view(results: Seq<EffectResult>) -> Seq<EffectResultView> {
    Seq::new(results.len(), |i: int| results[i]@)
}

/// What all effects together add to a roll.
#[derive(Debug, PartialEq, Eq)]
pub struct RollResult {
    effects: Vec<EffectResult>,
}

impl View for RollResult {
    type V = Seq<EffectResultView>;

    closed spec fn view(&self) -> Seq<EffectResultView> {
        results_view(self.effects@)
    }
}

impl Clone for RollResult {
    fn clone(&self) -> (copy: RollResult)
        ensures
            copy@ == self@,
    {
        let mut effects: Vec<EffectResult> = Vec::new();
        let mut i: usize = 0;
        while i < self.effects.len()
            invariant
                i <= self.effects.len(),
                effects@.len() == i,
                forall|j: int| 0 <= j < i ==> (#[trigger] effects@[j])@ == self.effects@[j]@,
            decreases self.effects.len() - i,
        {
            effects.push(self.effects[i].clone());
            i += 1;
        }
        assert(results_view(effects@) =~= results_view(self.effects@));
        RollResult { effects }
    }
}

impl RollResult {
    pub fn new(effects: Vec<EffectResult>) -> (result: RollResult)
        ensures
            result@ == results_view(effects@),
    {
        RollResult { effects }
    }

    pub fn effects(&self) -> (effects: &Vec<EffectResult>)
        ensures
            results_view(effects@) == self@,
    {
        &self.effects
    }
}

/// A bonus that applies to the roll, with the path of the feature that
/// grants it.
pub type MatchedBonus = (PathView, RollBonusView);

/// The views of a list of bonuses with their paths.
pub open spec fn matched_view(matched: Seq<(Vec<String>, RollBonus)>) -> Seq<MatchedBonus> {
    Seq::new(matched.len(), |i: int| (path_view(matched[i].0@), matched[i].1@))
}

/// The bonuses of those effects whose scope applies to the roll that `path`
/// asks for, in the order of the effects.
pub open spec fn matching_bonuses(effects: Seq<TaggedEffect>, path: PathView) -> Seq<MatchedBonus>
    decreases effects.len(),
{
    if effects.len() == 0 {
        Seq::empty()
    } else {
        let earlier = matching_bonuses(effects.drop_last(), path);
        match effects.last().1 {
            EffectView::Roll { bonus, scope } => {
                if scope.matches(path) {
                    earlier.push((effects.last().0, bonus))
                } else {
                    earlier
                }
            },
        }
    }
}

/// Whether the scope of an effect applies to the roll that `path` asks for.
pub open spec fn applies_to(path: PathView) -> spec_fn(TaggedEffect) -> bool {
    |tagged: TaggedEffect| tagged.1->scope.matches(path)
}

/// The bonus of an effect, with the path of the feature that grants it.
pub open spec fn bonus_of() -> spec_fn(TaggedEffect) -> MatchedBonus {
    |tagged: TaggedEffect| (tagged.0, tagged.1->bonus)
}

/// The matching bonuses are the bonuses of exactly the effects whose scope
/// applies, in the order of the effects.
pub proof fn lemma_matching_bonuses_filter(effects: Seq<TaggedEffect>, path: PathView)
    ensures
        matching_bonuses(effects, path) == effects.filter(applies_to(path)).map_values(bonus_of()),
    decreases effects.len(),
{
    reveal(Seq::filter);
    if effects.len() > 0 {
        let earlier = effects.drop_last();
        lemma_matching_bonuses_filter(earlier, path);
        let kept = earlier.filter(applies_to(path));
        if applies_to(path)(effects.last()) {
            assert(kept.push(effects.last()).map_values(bonus_of()) == kept.map_values(
                bonus_of(),
            ).push(bonus_of()(effects.last())));
        }
    } else {
        assert(effects.filter(applies_to(path)).map_values(bonus_of()) == Seq::<
            MatchedBonus,
        >::empty());
    }
}

/// Whether `thrown` can come of throwing the dice of every bonus that is a
/// roll: a list of throws for each such bonus, one throw for each of its
/// dice, and an empty list for every other bonus.
pub open spec fn is_thrown_for(thrown: Seq<Seq<RolledDiceView>>, matched: Seq<MatchedBonus>) -> bool {
    &&& thrown.len() == matched.len()
    &&& forall|i: int|
        0 <= i < matched.len() ==> match (#[trigger] matched[i]).1 {
            RollBonusView::Roll(dice) => {
                &&& thrown[i].len() == dice.len()
                &&& forall|k: int| 0 <= k < dice.len() ==> (#[trigger] thrown[i][k]).is_throw_of(dice[k])
            },
            _ => thrown[i].len() == 0,
        }
}

/// Whether every one of the dice can be thrown.
pub open spec fn all_can_roll(dice: Seq<Dice>) -> bool {
    forall|k: int| 0 <= k < dice.len() ==> (#[trigger] dice[k]).can_roll()
}

/// Whether every die of every bonus that is a roll can be thrown.
pub open spec fn can_throw_all(matched: Seq<MatchedBonus>) -> bool {
    forall|i: int|
        0 <= i < matched.len() ==> ((#[trigger] matched[i]).1 matches RollBonusView::Roll(dice)
            ==> all_can_roll(dice))
}

/// The views of a list of lists of thrown dice.
pub open spec fn thrown_view(thrown: Seq<Vec<RolledDice>>) -> Seq<Seq<RolledDiceView>> {
    Seq::new(thrown.len(), |i: int| rolled_view(thrown[i]@))
}

impl Roll {
    /// Whether every die of the roll can be thrown.
    pub fn can_roll(&self) -> (ready: bool)
        ensures
            ready == all_can_roll(self@),
    {
        let mut k: usize = 0;
        while k < self.dice.len()
            invariant
                k <= self.dice.len(),
                forall|j: int| 0 <= j < k ==> (#[trigger] self.dice@[j]).can_roll(),
            decreases self.dice.len() - k,
        {
            if self.dice[k].count > 0 && self.dice[k].sides < 1 {
                assert(!self.dice@[k as int].can_roll());
                return false;
            }
            k += 1;
        }
        true
    }

    /// Throws every die of the roll.
    pub fn roll(&self) -> (rolled: Vec<RolledDice>)
        requires
            all_can_roll(self@),
        ensures
            rolled@.len() == self@.len(),
            forall|k: int| 0 <= k < self@.len() ==> (#[trigger] rolled_view(rolled@)[k]).is_throw_of(self@[k]),
    {
        let mut rolled: Vec<RolledDice> = Vec::new();
        let mut k: usize = 0;
        while k < self.dice.len()
            invariant
                k <= self.dice.len(),
                rolled@.len() == k,
                all_can_roll(self.dice@),
                forall|j: int| 0 <= j < k ==> (#[trigger] rolled_view(rolled@)[j]).is_throw_of(self.dice@[j]),
            decreases self.dice.len() - k,
        {
            let ghost before = rolled@;
            assert(self.dice@[k as int].can_roll());
            let throw = self.dice[k].roll();
            rolled.push(throw);
            assert forall|j: int| 0 <= j < k + 1 implies (#[trigger] rolled_view(rolled@)[j]).is_throw_of(
                self.dice@[j],
            ) by {
                if j < k {
                    assert(rolled_view(before)[j].is_throw_of(self.dice@[j]));
                    assert(rolled@[j] == before[j]);
                }
            }
            k += 1;
        }
        rolled
    }

    /// The bonuses of those effects of the character whose scope applies to
    /// the roll that `path` asks for, each with the path of the feature that
    /// grants it.
    pub fn matching_bonuses(path: &Vec<String>, character: &Character) -> (matched: Vec<
        (Vec<String>, RollBonus),
    >)
        ensures
            matched_view(matched@) == matching_bonuses(character@.all_effects(), path_view(path@)),
    {
        let effects = character.all_effects();
        let ghost tagged = character@.all_effects();
        let mut matched: Vec<(Vec<String>, RollBonus)> = Vec::new();
        let mut i: usize = 0;
        assert(tagged.take(0) == Seq::<TaggedEffect>::empty());
        while i < effects.len()
            invariant
                i <= effects.len(),
                tagged == crate::domain::character::tagged_view(effects@),
                matched_view(matched@) == matching_bonuses(tagged.take(i as int), path_view(path@)),
            decreases effects.len() - i,
        {
            let ghost before = matched@;
            proof {
                assert(tagged.take(i + 1).drop_last() == tagged.take(i as int));
                assert(tagged.take(i + 1).last() == tagged[i as int]);
            }
            match &effects[i].1 {
                Effect::Roll { bonus, scope } => {
                    if scope.matches(path) {
                        let source = clone_path(&effects[i].0);
                        let bonus = bonus.clone();
                        matched.push((source, bonus));
                        assert(matched_view(matched@) == matched_view(before).push(
                            (tagged[i as int].0, tagged[i as int].1->bonus),
                        ));
                    }
                },
            }
            i += 1;
        }
        assert(tagged.take(effects.len() as int) == tagged);
        matched
    }

    /// Throws the dice of every bonus that is a roll.
    pub fn throw_all(matched: &Vec<(Vec<String>, RollBonus)>) -> (thrown: Vec<Vec<RolledDice>>)
        requires
            can_throw_all(matched_view(matched@)),
        ensures
            is_thrown_for(thrown_view(thrown@), matched_view(matched@)),
    {
        let mut thrown: Vec<Vec<RolledDice>> = Vec::new();
        let mut i: usize = 0;
        while i < matched.len()
            invariant
                i <= matched.len(),
                thrown@.len() == i,
                can_throw_all(matched_view(matched@)),
                is_thrown_for(thrown_view(thrown@), matched_view(matched@).take(i as int)),
            decreases matched.len() - i,
        {
            let ghost before = thrown@;
            let rolled = match &matched[i].1 {
                RollBonus::Roll(roll) => {
                    assert(matched_view(matched@)[i as int].1 == RollBonusView::Roll(roll@));
                    roll.roll()
                },
                _ => Vec::new(),
            };
            thrown.push(rolled);
            proof {
                let now = matched_view(matched@).take(i + 1);
                assert forall|j: int| 0 <= j < now.len() implies match (#[trigger] now[j]).1 {
                    RollBonusView::Roll(dice) => {
                        &&& thrown_view(thrown@)[j].len() == dice.len()
                        &&& forall|k: int|
                            0 <= k < dice.len() ==> (#[trigger] thrown_view(thrown@)[j][k]).is_throw_of(
                                dice[k],
                            )
                    },
                    _ => thrown_view(thrown@)[j].len() == 0,
                } by {
                    if j < i {
                        assert(thrown@[j] == before[j]);
                        assert(thrown_view(before)[j] == thrown_view(thrown@)[j]);
                        assert(matched_view(matched@).take(i as int)[j] == now[j]);
                    }
                }
            }
            i += 1;
        }
        assert(matched_view(matched@).take(matched.len() as int) == matched_view(matched@));
        thrown
    }
}

/// What one bonus adds to the roll, given what its dice showed. Proficiency
/// adds nothing here: it is counted once for the whole roll.
pub open spec fn draft_of(
    matched: MatchedBonus,
    thrown: Seq<RolledDiceView>,
    scores: Map<Ability, int>,
) -> Option<EffectResultView> {
    match matched.1 {
        RollBonusView::Modifier(modifier) => Some(
            EffectResultView { path: matched.0, rolled_dice: Seq::empty(), bonus: modifier },
        ),
        RollBonusView::Roll(_) => Some(
            EffectResultView { path: matched.0, rolled_dice: thrown, bonus: 0 },
        ),
        RollBonusView::Ability(ability) => Some(
            EffectResultView {
                path: matched.0.push(ability.spec_name()),
                rolled_dice: Seq::empty(),
                bonus: modifier_of(scores[ability]),
            },
        ),
        RollBonusView::Proficiency => None,
    }
}

/// What the first `upto` bonuses add to the roll, proficiency left aside, in
/// the order of the bonuses.
pub open spec fn plain_drafts(
    matched: Seq<MatchedBonus>,
    thrown: Seq<Seq<RolledDiceView>>,
    scores: Map<Ability, int>,
    upto: int,
) -> Seq<EffectResultView>
    decreases upto,
{
    if upto <= 0 {
        Seq::empty()
    } else {
        let earlier = plain_drafts(matched, thrown, scores, upto - 1);
        match draft_of(matched[upto - 1], thrown[upto - 1], scores) {
            Some(draft) => earlier.push(draft),
            None => earlier,
        }
    }
}

/// The path of the feature that is the first to grant proficiency, if any
/// does.
pub open spec fn first_proficiency(matched: Seq<MatchedBonus>) -> Option<PathView>
    decreases matched.len(),
{
    if matched.len() == 0 {
        None
    } else {
        match first_proficiency(matched.drop_last()) {
            Some(source) => Some(source),
            None => if matched.last().1 is Proficiency {
                Some(matched.last().0)
            } else {
                None
            },
        }
    }
}

/// What the bonuses add to the roll, before sorting: every bonus but
/// proficiency in turn, and then proficiency, once, where any feature grants
/// it.
pub open spec fn drafts(
    matched: Seq<MatchedBonus>,
    thrown: Seq<Seq<RolledDiceView>>,
    scores: Map<Ability, int>,
    proficiency: int,
) -> Seq<EffectResultView> {
    let plain = plain_drafts(matched, thrown, scores, matched.len() as int);
    match first_proficiency(matched) {
        Some(source) => plain.push(
            EffectResultView { path: source, rolled_dice: Seq::empty(), bonus: proficiency },
        ),
        None => plain,
    }
}

/// Where a result with this path goes into a sorted list: behind every
/// result that does not come after it.
pub open spec fn insertion_place(sorted: Seq<EffectResultView>, path: PathView) -> int
    decreases sorted.len(),
{
    if sorted.len() > 0 && path_before(path, sorted.last().path) {
        insertion_place(sorted.drop_last(), path)
    } else {
        sorted.len() as int
    }
}

/// The results in the order of their paths. Results with the same path keep
/// the order that they had.
pub open spec fn sort_by_path(results: Seq<EffectResultView>) -> Seq<EffectResultView>
    decreases results.len(),
{
    if results.len() == 0 {
        Seq::empty()
    } else {
        let earlier = sort_by_path(results.drop_last());
        earlier.insert(insertion_place(earlier, results.last().path), results.last())
    }
}

/// Whether no result comes before one that stands earlier in the list.
pub open spec fn is_sorted_by_path(results: Seq<EffectResultView>) -> bool {
    forall|i: int, j: int|
        0 <= i < j < results.len() ==> !path_before(
            (#[trigger] results[j]).path,
            (#[trigger] results[i]).path,
        )
}

/// What the character's effects add to the roll that `path` asks for, given
/// what the dice showed.
pub open spec fn roll_result(
    path: PathView,
    character: CharacterView,
    thrown: Seq<Seq<RolledDiceView>>,
) -> Seq<EffectResultView> {
    sort_by_path(
        drafts(
            matching_bonuses(character.all_effects(), path),
            thrown,
            character.ability_scores,
            character.proficiency_bonus(),
        ),
    )
}

/// Whether the roll that `path` asks for can be made: every die that it
/// throws can be thrown, and where proficiency counts the total level can be
/// held in an `isize`.
pub open spec fn can_calculate(path: PathView, character: CharacterView) -> bool {
    let matched = matching_bonuses(character.all_effects(), path);
    &&& can_throw_all(matched)
    &&& first_proficiency(matched) is Some ==> fits_isize(character.total_level())
}

/// The place that a scan from the end of a sorted list stops at is the place
/// where the result goes.
proof fn lemma_insertion_place(sorted: Seq<EffectResultView>, path: PathView, place: int)
    requires
        0 <= place <= sorted.len(),
        forall|j: int| place <= j < sorted.len() ==> path_before(path, (#[trigger] sorted[j]).path),
        place > 0 ==> !path_before(path, sorted[place - 1].path),
    ensures
        insertion_place(sorted, path) == place,
    decreases sorted.len(),
{
    if place < sorted.len() {
        assert(path_before(path, sorted[sorted.len() - 1].path));
        let shorter = sorted.drop_last();
        assert forall|j: int| place <= j < shorter.len() implies path_before(
            path,
            (#[trigger] shorter[j]).path,
        ) by {
            assert(shorter[j] == sorted[j]);
        }
        lemma_insertion_place(shorter, path, place);
    }
}

/// Where a result goes, every result from there on comes after it, and the
/// one before does not.
pub proof fn lemma_insertion_place_bounds(sorted: Seq<EffectResultView>, path: PathView)
    ensures
        0 <= insertion_place(sorted, path) <= sorted.len(),
        forall|j: int|
            insertion_place(sorted, path) <= j < sorted.len() ==> path_before(
                path,
                (#[trigger] sorted[j]).path,
            ),
        insertion_place(sorted, path) > 0 ==> !path_before(
            path,
            sorted[insertion_place(sorted, path) - 1].path,
        ),
    decreases sorted.len(),
{
    if sorted.len() > 0 && path_before(path, sorted.last().path) {
        let shorter = sorted.drop_last();
        lemma_insertion_place_bounds(shorter, path);
        assert forall|j: int| insertion_place(sorted, path) <= j < sorted.len() implies path_before(
            path,
            (#[trigger] sorted[j]).path,
        ) by {
            if j < shorter.len() {
                assert(shorter[j] == sorted[j]);
            }
        }
        if insertion_place(sorted, path) > 0 {
            assert(shorter[insertion_place(sorted, path) - 1] == sorted[insertion_place(sorted, path)
                - 1]);
        }
    }
}

/// Sorting keeps the number of results.
pub proof fn lemma_sort_keeps_length(results: Seq<EffectResultView>)
    ensures
        sort_by_path(results).len() == results.len(),
    decreases results.len(),
{
    if results.len() > 0 {
        let earlier = sort_by_path(results.drop_last());
        lemma_sort_keeps_length(results.drop_last());
        lemma_insertion_place_bounds(earlier, results.last().path);
    }
}

/// Sorting keeps the results themselves: each as often as it was there.
pub proof fn lemma_sort_permutes(results: Seq<EffectResultView>)
    ensures
        sort_by_path(results).to_multiset() == results.to_multiset(),
    decreases results.len(),
{
    broadcast use vstd::seq_lib::group_to_multiset_ensures;

    if results.len() > 0 {
        let earlier = sort_by_path(results.drop_last());
        lemma_sort_permutes(results.drop_last());
        lemma_insertion_place_bounds(earlier, results.last().path);
        assert(results == results.drop_last().push(results.last()));
        assert(sort_by_path(results).to_multiset() == earlier.to_multiset().insert(results.last()));
        assert(results.to_multiset() == results.drop_last().to_multiset().insert(results.last()));
    } else {
        assert(sort_by_path(results) == results);
    }
}

/// What comes out of sorting is in the order of the paths.
pub proof fn lemma_sort_sorts(results: Seq<EffectResultView>)
    ensures
        is_sorted_by_path(sort_by_path(results)),
    decreases results.len(),
{
    if results.len() > 0 {
        let earlier = sort_by_path(results.drop_last());
        let last = results.last();
        let place = insertion_place(earlier, last.path);
        lemma_sort_sorts(results.drop_last());
        lemma_insertion_place_bounds(earlier, last.path);
        crate::domain::path::lemma_path_order();
        let sorted = earlier.insert(place, last);
        assert forall|i: int, j: int| 0 <= i < j < sorted.len() implies !path_before(
            (#[trigger] sorted[j]).path,
            (#[trigger] sorted[i]).path,
        ) by {
            if j < place {
                assert(sorted[i] == earlier[i] && sorted[j] == earlier[j]);
            } else if j == place {
                assert(sorted[i] == earlier[i]);
                if i < place - 1 {
                    assert(!path_before(earlier[place - 1].path, earlier[i].path));
                    assert(!path_before(last.path, earlier[place - 1].path));
                }
            } else if i == place {
                assert(sorted[j] == earlier[j - 1]);
                assert(path_before(last.path, earlier[j - 1].path));
            } else if i < place {
                assert(sorted[i] == earlier[i] && sorted[j] == earlier[j - 1]);
            } else {
                assert(sorted[i] == earlier[i - 1] && sorted[j] == earlier[j - 1]);
            }
        }
    }
}

/// Sorting leaves a list alone that is in the order of the paths already.
pub proof fn lemma_sort_keeps_sorted(results: Seq<EffectResultView>)
    requires
        is_sorted_by_path(results),
    ensures
        sort_by_path(results) == results,
    decreases results.len(),
{
    if results.len() > 0 {
        let shorter = results.drop_last();
        assert(is_sorted_by_path(shorter)) by {
            assert forall|i: int, j: int| 0 <= i < j < shorter.len() implies !path_before(
                (#[trigger] shorter[j]).path,
                (#[trigger] shorter[i]).path,
            ) by {
                assert(shorter[i] == results[i] && shorter[j] == results[j]);
            }
        }
        lemma_sort_keeps_sorted(shorter);
        if shorter.len() > 0 {
            assert(shorter.last() == results[results.len() - 2]);
            assert(results.last() == results[results.len() - 1]);
        }
        assert(insertion_place(shorter, results.last().path) == shorter.len());
        assert(shorter.insert(shorter.len() as int, results.last()) == results);
    }
}

/// Sorting twice is sorting once.
pub proof fn lemma_sort_is_idempotent(results: Seq<EffectResultView>)
    ensures
        sort_by_path(sort_by_path(results)) == sort_by_path(results),
{
    lemma_sort_sorts(results);
    lemma_sort_keeps_sorted(sort_by_path(results));
}

/// How many of the bonuses are something else than proficiency.
pub open spec fn count_plain(matched: Seq<MatchedBonus>, upto: int) -> int
    decreases upto,
{
    if upto <= 0 {
        0
    } else if matched[upto - 1].1 is Proficiency {
        count_plain(matched, upto - 1)
    } else {
        count_plain(matched, upto - 1) + 1
    }
}

/// Every bonus but proficiency gives one result.
pub proof fn lemma_plain_drafts_length(
    matched: Seq<MatchedBonus>,
    thrown: Seq<Seq<RolledDiceView>>,
    scores: Map<Ability, int>,
    upto: int,
)
    ensures
        plain_drafts(matched, thrown, scores, upto).len() == count_plain(matched, upto),
    decreases upto,
{
    if upto > 0 {
        lemma_plain_drafts_length(matched, thrown, scores, upto - 1);
    }
}

/// Proficiency is found exactly where some bonus grants it.
pub proof fn lemma_first_proficiency(matched: Seq<MatchedBonus>)
    ensures
        first_proficiency(matched) is Some <==> count_plain(matched, matched.len() as int)
            < matched.len(),
        0 <= count_plain(matched, matched.len() as int) <= matched.len(),
    decreases matched.len(),
{
    if matched.len() > 0 {
        lemma_first_proficiency(matched.drop_last());
        lemma_count_plain_of_prefix(matched, matched.len() - 1);
    }
}

/// Counting in a list and counting in its beginning agree on the beginning.
proof fn lemma_count_plain_of_prefix(matched: Seq<MatchedBonus>, upto: int)
    requires
        0 <= upto < matched.len(),
    ensures
        count_plain(matched.drop_last(), upto) == count_plain(matched, upto),
    decreases upto,
{
    if upto > 0 {
        lemma_count_plain_of_prefix(matched, upto - 1);
    }
}

/// How many results a roll has: one for every bonus but proficiency, and one
/// more where proficiency is among the bonuses, however often.
pub open spec fn count_results(matched: Seq<MatchedBonus>) -> int {
    let plain = count_plain(matched, matched.len() as int);
    if plain < matched.len() {
        plain + 1
    } else {
        plain
    }
}

/// Proficiency is counted once: the roll has one result for every bonus but
/// proficiency and one more where proficiency is granted, whatever the dice
/// show.
pub proof fn lemma_results_are_counted(
    matched: Seq<MatchedBonus>,
    thrown: Seq<Seq<RolledDiceView>>,
    scores: Map<Ability, int>,
    proficiency: int,
)
    ensures
        sort_by_path(drafts(matched, thrown, scores, proficiency)).len() == count_results(matched),
{
    lemma_first_proficiency(matched);
    lemma_plain_drafts_length(matched, thrown, scores, matched.len() as int);
    lemma_sort_keeps_length(drafts(matched, thrown, scores, proficiency));
}

/// The first to grant proficiency is the first of the bonuses where all of
/// them are proficiency, and nothing else comes of them.
proof fn lemma_all_proficient(
    matched: Seq<MatchedBonus>,
    thrown: Seq<Seq<RolledDiceView>>,
    scores: Map<Ability, int>,
    upto: int,
)
    requires
        0 <= upto <= matched.len(),
        forall|i: int| 0 <= i < matched.len() ==> (#[trigger] matched[i]).1 is Proficiency,
    ensures
        plain_drafts(matched, thrown, scores, upto) == Seq::<EffectResultView>::empty(),
        upto > 0 ==> first_proficiency(matched.take(upto)) == Some(matched[0].0),
    decreases upto,
{
    if upto > 0 {
        lemma_all_proficient(matched, thrown, scores, upto - 1);
        assert(matched[upto - 1].1 is Proficiency);
        assert(matched.take(upto).drop_last() == matched.take(upto - 1));
        assert(matched.take(upto).last() == matched[upto - 1]);
        if upto == 1 {
            assert(matched.take(0).len() == 0);
        }
    }
}

/// Where every bonus that applies is proficiency, the roll has exactly one
/// result, however many features grant it: without dice, with the
/// proficiency bonus, from the first feature that grants it.
pub proof fn lemma_proficiency_alone(
    matched: Seq<MatchedBonus>,
    thrown: Seq<Seq<RolledDiceView>>,
    scores: Map<Ability, int>,
    proficiency: int,
)
    requires
        matched.len() > 0,
        forall|i: int| 0 <= i < matched.len() ==> (#[trigger] matched[i]).1 is Proficiency,
    ensures
        sort_by_path(drafts(matched, thrown, scores, proficiency)) == seq![
            EffectResultView { path: matched[0].0, rolled_dice: Seq::empty(), bonus: proficiency },
        ],
{
    lemma_all_proficient(matched, thrown, scores, matched.len() as int);
    assert(matched.take(matched.len() as int) == matched);
    let only = EffectResultView {
        path: matched[0].0,
        rolled_dice: Seq::empty(),
        bonus: proficiency,
    };
    assert(drafts(matched, thrown, scores, proficiency) == seq![only]);
    lemma_sort_keeps_sorted(seq![only]);
}

/// The bonuses that apply among two lists of effects, one after the other.
pub proof fn lemma_matching_bonuses_add(left: Seq<TaggedEffect>, right: Seq<TaggedEffect>, path: PathView)
    ensures
        matching_bonuses(left + right, path) == matching_bonuses(left, path) + matching_bonuses(
            right,
            path,
        ),
    decreases right.len(),
{
    if right.len() == 0 {
        assert(left + right == left);
    } else {
        assert((left + right).drop_last() == left + right.drop_last());
        assert((left + right).last() == right.last());
        lemma_matching_bonuses_add(left, right.drop_last(), path);
    }
}

/// Whether a feature has no children and a single effect, which grants
/// proficiency to the roll that `path` asks for.
pub open spec fn grants_only_proficiency(feature: FeatureView, path: PathView) -> bool {
    &&& feature.children.len() == 0
    &&& feature.effects.len() == 1
    &&& feature.effects[0]->bonus is Proficiency
    &&& feature.effects[0]->scope.matches(path)
}

/// Features that each grant proficiency to a roll, and nothing else, give
/// one matching bonus each: proficiency, from the feature's own name.
pub proof fn lemma_proficient_features_match(features: Seq<(Seq<char>, FeatureView)>, path: PathView)
    requires
        forall|i: int| 0 <= i < features.len() ==> grants_only_proficiency((#[trigger] features[i]).1, path),
    ensures
        matching_bonuses(children_effects(features, Seq::empty()), path) == Seq::new(
            features.len(),
            |i: int| (seq![features[i].0], RollBonusView::Proficiency),
        ),
    decreases features.len(),
{
    let root = Seq::<Seq<char>>::empty();
    if features.len() > 0 {
        let earlier = features.drop_last();
        let last = features.last();
        assert forall|i: int| 0 <= i < earlier.len() implies grants_only_proficiency(
            (#[trigger] earlier[i]).1,
            path,
        ) by {
            assert(earlier[i] == features[i]);
        }
        lemma_proficient_features_match(earlier, path);
        assert(grants_only_proficiency(features[features.len() - 1].1, path));
        let own = last.1.all_effects(root.push(last.0));
        assert(root.push(last.0) == seq![last.0]);
        assert(own == seq![(seq![last.0], last.1.effects[0])]) by {
            assert(children_effects(last.1.children, seq![last.0]) == Seq::<TaggedEffect>::empty());
            assert(tag_all(seq![last.0], last.1.effects) == seq![(seq![last.0], last.1.effects[0])]);
        }
        assert(matching_bonuses(own, path) == seq![(seq![last.0], RollBonusView::Proficiency)]) by {
            assert(own.drop_last() == Seq::<TaggedEffect>::empty());
            assert(matching_bonuses(own.drop_last(), path) == Seq::<MatchedBonus>::empty());
        }
        lemma_matching_bonuses_add(children_effects(earlier, root), own, path);
        assert(matching_bonuses(children_effects(features, root), path) == Seq::new(
            features.len(),
            |i: int| (seq![features[i].0], RollBonusView::Proficiency),
        ));
    }
}

/// Proficiency does not stack: a character whose features each grant
/// proficiency to a roll, and nothing else, has exactly one result for that
/// roll, however many such features there are. The result has no dice, holds
/// the proficiency bonus, and comes from the first of the features.
pub proof fn lemma_proficiency_does_not_stack(
    path: PathView,
    character: CharacterView,
    thrown: Seq<Seq<RolledDiceView>>,
)
    requires
        character.features.len() > 0,
        forall|i: int|
            0 <= i < character.features.len() ==> grants_only_proficiency(
                (#[trigger] character.features[i]).1,
                path,
            ),
    ensures
        roll_result(path, character, thrown) == seq![
            EffectResultView {
                path: seq![character.features[0].0],
                rolled_dice: Seq::empty(),
                bonus: character.proficiency_bonus(),
            },
        ],
        can_throw_all(matching_bonuses(character.all_effects(), path)),
{
    lemma_proficient_features_match(character.features, path);
    let matched = matching_bonuses(character.all_effects(), path);
    lemma_proficiency_alone(
        matched,
        thrown,
        character.ability_scores,
        character.proficiency_bonus(),
    );
}

/// The results in the order of their paths; results with the same path keep
/// the order that they had.
pub fn sort_results(results: Vec<EffectResult>) -> (sorted: Vec<EffectResult>)
    ensures
        results_view(sorted@) == sort_by_path(results_view(results@)),
{
    let ghost all = results_view(results@);
    let mut rest = results;
    let mut sorted: Vec<EffectResult> = Vec::new();
    assert(all.take(0) == Seq::<EffectResultView>::empty());
    assert(all.skip(0) == all);
    while rest.len() > 0
        invariant
            rest@.len() <= all.len(),
            results_view(rest@) == all.skip(all.len() - rest@.len()),
            results_view(sorted@) == sort_by_path(all.take(all.len() - rest@.len())),
        decreases rest.len(),
    {
        let ghost done = all.len() - rest@.len();
        let ghost earlier = results_view(sorted@);
        let ghost waiting = rest@;
        let next = rest.remove(0);
        assert(next@ == all[done]) by {
            assert(results_view(waiting)[0] == all.skip(done)[0]);
        }
        let mut place: usize = sorted.len();
        while place > 0 && is_path_before(&next.path, &sorted[place - 1].path)
            invariant
                place <= sorted.len(),
                earlier == results_view(sorted@),
                forall|j: int|
                    place <= j < sorted.len() ==> path_before(next@.path, (#[trigger] earlier[j]).path),
            decreases place,
        {
            place -= 1;
        }
        proof {
            lemma_insertion_place(earlier, next@.path, place as int);
            assert(all.take(done + 1).drop_last() == all.take(done));
            assert(all.take(done + 1).last() == all[done]);
        }
        sorted.insert(place, next);
        assert(results_view(sorted@) == earlier.insert(place as int, all[done]));
        assert(results_view(rest@) == all.skip(done + 1)) by {
            assert forall|j: int| 0 <= j < rest@.len() implies results_view(rest@)[j] == all.skip(
                done + 1,
            )[j] by {
                assert(rest@[j] == waiting[j + 1]);
                assert(results_view(waiting)[j + 1] == all.skip(done)[j + 1]);
            }
        }
    }
    assert(all.take(all.len() as int) == all);
    sorted
}

impl Roll {
    /// Puts together what the bonuses add to the roll, given what the dice
    /// of each of them showed: a result for every bonus but proficiency,
    /// proficiency once where any feature grants it, all in the order of
    /// their paths.
    pub fn assemble(
        matched: &Vec<(Vec<String>, RollBonus)>,
        thrown: Vec<Vec<RolledDice>>,
        character: &Character,
    ) -> (result: RollResult)
        requires
            thrown@.len() == matched@.len(),
            first_proficiency(matched_view(matched@)) is Some ==> fits_isize(character@.total_level()),
        ensures
            result@ == sort_by_path(
                drafts(
                    matched_view(matched@),
                    thrown_view(thrown@),
                    character@.ability_scores,
                    character@.proficiency_bonus(),
                ),
            ),
            result@.len() == count_results(matched_view(matched@)),
    {
        proof {
            lemma_results_are_counted(
                matched_view(matched@),
                thrown_view(thrown@),
                character@.ability_scores,
                character@.proficiency_bonus(),
            );
        }
        let ghost bonuses = matched_view(matched@);
        let ghost shown = thrown_view(thrown@);
        let ghost scores = character@.ability_scores;
        let mut thrown = thrown;
        let mut results: Vec<EffectResult> = Vec::new();
        let mut proficient: Option<Vec<String>> = None;
        let mut i: usize = 0;
        assert(bonuses.take(0) == Seq::<MatchedBonus>::empty());
        while i < matched.len()
            invariant
                i <= matched.len(),
                thrown@.len() == matched@.len(),
                bonuses == matched_view(matched@),
                scores == character@.ability_scores,
                shown.len() == thrown@.len(),
                forall|j: int| i <= j < thrown@.len() ==> rolled_view((#[trigger] thrown@[j])@) == shown[j],
                results_view(results@) == plain_drafts(bonuses, shown, scores, i as int),
                match proficient {
                    Some(source) => first_proficiency(bonuses.take(i as int)) == Some(
                        path_view(source@),
                    ),
                    None => first_proficiency(bonuses.take(i as int)) is None,
                },
            decreases matched.len() - i,
        {
            let ghost before = results_view(results@);
            proof {
                assert(bonuses.take(i + 1).drop_last() == bonuses.take(i as int));
                assert(bonuses.take(i + 1).last() == bonuses[i as int]);
                assert(rolled_view(thrown@[i as int]@) == shown[i as int]);
            }
            match &matched[i].1 {
                RollBonus::Roll(_) => {
                    let mut rolled: Vec<RolledDice> = Vec::new();
                    std::mem::swap(&mut thrown[i], &mut rolled);
                    let result = EffectResult {
                        path: clone_path(&matched[i].0),
                        rolled_dice: rolled,
                        bonus: 0,
                    };
                    results.push(result);
                    assert(results_view(results@) == before.push(
                        draft_of(bonuses[i as int], shown[i as int], scores)->0,
                    ));
                },
                RollBonus::Modifier(modifier) => {
                    let result = EffectResult {
                        path: clone_path(&matched[i].0),
                        rolled_dice: Vec::new(),
                        bonus: *modifier,
                    };
                    assert(rolled_view(result.rolled_dice@) == Seq::<RolledDiceView>::empty());
                    results.push(result);
                    assert(results_view(results@) == before.push(
                        draft_of(bonuses[i as int], shown[i as int], scores)->0,
                    ));
                },
                RollBonus::Ability(ability) => {
                    let mut path = clone_path(&matched[i].0);
                    path.push(ability.name());
                    assert(path_view(path@) == bonuses[i as int].0.push(ability.spec_name()));
                    let result = EffectResult {
                        path,
                        rolled_dice: Vec::new(),
                        bonus: character.get_ability_score(*ability).modifier(),
                    };
                    assert(rolled_view(result.rolled_dice@) == Seq::<RolledDiceView>::empty());
                    results.push(result);
                    assert(results_view(results@) == before.push(
                        draft_of(bonuses[i as int], shown[i as int], scores)->0,
                    ));
                },
                RollBonus::Proficiency => {
                    if proficient.is_none() {
                        proficient = Some(clone_path(&matched[i].0));
                    }
                },
            }
            i += 1;
        }
        assert(bonuses.take(matched.len() as int) == bonuses);
        match proficient {
            Some(source) => {
                let ghost before = results_view(results@);
                let result = EffectResult {
                    path: source,
                    rolled_dice: Vec::new(),
                    bonus: character.proficiency_bonus(),
                };
                assert(rolled_view(result.rolled_dice@) == Seq::<RolledDiceView>::empty());
                results.push(result);
                assert(results_view(results@) == before.push(result@));
            },
            None => {},
        }
        RollResult { effects: sort_results(results) }
    }

    /// Whether the roll that `path` asks for can be made.
    pub fn can_calculate(path: &Vec<String>, character: &Character) -> (ready: bool)
        ensures
            ready == can_calculate(path_view(path@), character@),
    {
        let matched = Roll::matching_bonuses(path, character);
        Roll::can_assemble(&matched, character)
    }

    /// Whether the dice of all these bonuses can be thrown.
    pub fn can_throw(matched: &Vec<(Vec<String>, RollBonus)>) -> (ready: bool)
        ensures
            ready == can_throw_all(matched_view(matched@)),
    {
        let ghost bonuses = matched_view(matched@);
        let mut i: usize = 0;
        while i < matched.len()
            invariant
                i <= matched.len(),
                bonuses == matched_view(matched@),
                can_throw_all(bonuses.take(i as int)),
            decreases matched.len() - i,
        {
            match &matched[i].1 {
                RollBonus::Roll(roll) => {
                    if !roll.can_roll() {
                        assert(!can_throw_all(bonuses)) by {
                            assert(bonuses[i as int].1 == RollBonusView::Roll(roll@));
                        }
                        return false;
                    }
                },
                _ => {},
            }
            assert(can_throw_all(bonuses.take(i + 1))) by {
                assert forall|j: int| 0 <= j < i + 1 implies ((#[trigger] bonuses.take(
                    i + 1,
                )[j]).1 matches RollBonusView::Roll(dice) ==> all_can_roll(dice)) by {
                    if j < i {
                        assert(bonuses.take(i as int)[j] == bonuses.take(i + 1)[j]);
                    }
                }
            }
            i += 1;
        }
        assert(bonuses.take(matched.len() as int) == bonuses);
        true
    }

    /// Whether proficiency is among these bonuses.
    pub fn grants_proficiency(matched: &Vec<(Vec<String>, RollBonus)>) -> (granted: bool)
        ensures
            granted == first_proficiency(matched_view(matched@)) is Some,
    {
        let ghost bonuses = matched_view(matched@);
        let mut granted = false;
        let mut i: usize = 0;
        assert(bonuses.take(0) == Seq::<MatchedBonus>::empty());
        while i < matched.len()
            invariant
                i <= matched.len(),
                bonuses == matched_view(matched@),
                granted == first_proficiency(bonuses.take(i as int)) is Some,
            decreases matched.len() - i,
        {
            proof {
                assert(bonuses.take(i + 1).drop_last() == bonuses.take(i as int));
                assert(bonuses.take(i + 1).last() == bonuses[i as int]);
            }
            match &matched[i].1 {
                RollBonus::Proficiency => {
                    granted = true;
                },
                _ => {},
            }
            i += 1;
        }
        assert(bonuses.take(matched.len() as int) == bonuses);
        granted
    }

    /// Whether the dice of all these bonuses can be thrown and, where
    /// proficiency is among them, the total level can be held.
    fn can_assemble(matched: &Vec<(Vec<String>, RollBonus)>, character: &Character) -> (ready: bool)
        ensures
            ready == (can_throw_all(matched_view(matched@)) && (first_proficiency(
                matched_view(matched@),
            ) is Some ==> fits_isize(character@.total_level()))),
    {
        Roll::can_throw(matched) && (!Roll::grants_proficiency(matched)
            || character.has_total_level())
    }

    /// What the character's effects add to the roll that `path` asks for.
    /// The dice are thrown here, so two calls may differ in what the dice
    /// show, and in nothing else.
    pub fn calculate(path: &Vec<String>, character: &Character) -> (result: RollResult)
        requires
            can_calculate(path_view(path@), character@),
        ensures
            exists|thrown: Seq<Seq<RolledDiceView>>|
                is_thrown_for(thrown, matching_bonuses(character@.all_effects(), path_view(path@)))
                    && result@ == #[trigger] roll_result(path_view(path@), character@, thrown),
            result@.len() == count_results(
                matching_bonuses(character@.all_effects(), path_view(path@)),
            ),
    {
        let matched = Roll::matching_bonuses(path, character);
        let thrown = Roll::throw_all(&matched);
        let ghost shown = thrown_view(thrown@);
        let result = Roll::assemble(&matched, thrown, character);
        assert(result@ == roll_result(path_view(path@), character@, shown));
        result
    }

    /// `calculate` where the roll can be made; otherwise nothing.
    pub fn checked_calculate(path: &Vec<String>, character: &Character) -> (result: Option<RollResult>)
        ensures
            result is Some <==> can_calculate(path_view(path@), character@),
            result matches Some(outcome) ==> exists|thrown: Seq<Seq<RolledDiceView>>|
                is_thrown_for(thrown, matching_bonuses(character@.all_effects(), path_view(path@)))
                    && outcome@ == #[trigger] roll_result(path_view(path@), character@, thrown),
            result matches Some(outcome) ==> outcome@.len() == count_results(
                matching_bonuses(character@.all_effects(), path_view(path@)),
            ),
    {
        let matched = Roll::matching_bonuses(path, character);
        if Roll::can_assemble(&matched, character) {
            let thrown = Roll::throw_all(&matched);
            let ghost shown = thrown_view(thrown@);
            let outcome = Roll::assemble(&matched, thrown, character);
            assert(outcome@ == roll_result(path_view(path@), character@, shown));
            Some(outcome)
        } else {
            None
        }
    }
}

/// The sum of what the dice of one throw showed.
pub open spec fn faces_total(results: Seq<isize>) -> int
    decreases results.len(),
{
    if results.len() == 0 {
        0
    } else {
        faces_total(results.drop_last()) + results.last()
    }
}

/// Whether the faces can be added up one after the other within the range
/// of an `isize`.
pub open spec fn faces_fit(results: Seq<isize>) -> bool
    decreases results.len(),
{
    results.len() == 0 || (faces_fit(results.drop_last()) && fits_isize(faces_total(results)))
}

/// The sum of what all the dice showed.
pub open spec fn dice_total(rolled: Seq<RolledDiceView>) -> int
    decreases rolled.len(),
{
    if rolled.len() == 0 {
        0
    } else {
        dice_total(rolled.drop_last()) + faces_total(rolled.last().results)
    }
}

/// Whether the throws can be added up one after the other within the range
/// of an `isize`.
pub open spec fn dice_fit(rolled: Seq<RolledDiceView>) -> bool
    decreases rolled.len(),
{
    rolled.len() == 0 || (dice_fit(rolled.drop_last()) && faces_fit(rolled.last().results)
        && fits_isize(dice_total(rolled)))
}

impl EffectResultView {
    /// What the effect adds in all: its bonus and what its dice showed.
    pub open spec fn total_bonus(self) -> int {
        self.bonus + dice_total(self.rolled_dice)
    }

    /// Whether that can be added up within the range of an `isize`.
    pub open spec fn total_fits(self) -> bool {
        dice_fit(self.rolled_dice) && fits_isize(self.total_bonus())
    }
}

/// The total of a roll: the sum of what each effect adds.
pub open spec fn total_of(results: Seq<EffectResultView>) -> int
    decreases results.len(),
{
    if results.len() == 0 {
        0
    } else {
        total_of(results.drop_last()) + results.last().total_bonus()
    }
}

/// Whether the total can be added up, effect after effect, within the range
/// of an `isize`.
pub open spec fn total_fits(results: Seq<EffectResultView>) -> bool
    decreases results.len(),
{
    results.len() == 0 || (total_fits(results.drop_last()) && results.last().total_fits()
        && fits_isize(total_of(results)))
}

impl RolledDice {
    /// The sum of what the dice showed; nothing where it cannot be added up
    /// within the range of an `isize`.
    pub fn total(&self) -> (total: Option<isize>)
        ensures
            total == if faces_fit(self@.results) {
                Some(faces_total(self@.results) as isize)
            } else {
                None
            },
    {
        let ghost faces = self.results@;
        let mut sum: isize = 0;
        let mut i: usize = 0;
        assert(faces.take(0) == Seq::<isize>::empty());
        while i < self.results.len()
            invariant
                i <= self.results.len(),
                faces == self.results@,
                faces_fit(faces.take(i as int)),
                sum == faces_total(faces.take(i as int)),
            decreases self.results.len() - i,
        {
            proof {
                assert(faces.take(i + 1).drop_last() == faces.take(i as int));
                assert(faces.take(i + 1).last() == faces[i as int]);
            }
            match sum.checked_add(self.results[i]) {
                Some(next) => {
                    sum = next;
                },
                None => {
                    proof {
                        if faces_fit(faces) {
                            lemma_faces_fit_from_start(faces, i + 1);
                        }
                    }
                    return None;
                },
            }
            i += 1;
        }
        assert(faces.take(faces.len() as int) == faces);
        Some(sum)
    }
}

/// Faces that can be added up can be added up to any place on the way.
proof fn lemma_faces_fit_from_start(results: Seq<isize>, upto: int)
    requires
        0 <= upto <= results.len(),
        faces_fit(results),
    ensures
        faces_fit(results.take(upto)),
    decreases results.len(),
{
    if upto < results.len() {
        assert(results.drop_last().take(upto) == results.take(upto));
        lemma_faces_fit_from_start(results.drop_last(), upto);
    } else {
        assert(results.take(upto) == results);
    }
}

/// Throws that can be added up can be added up to any place on the way.
proof fn lemma_dice_fit_from_start(rolled: Seq<RolledDiceView>, upto: int)
    requires
        0 <= upto <= rolled.len(),
        dice_fit(rolled),
    ensures
        dice_fit(rolled.take(upto)),
    decreases rolled.len(),
{
    if upto < rolled.len() {
        assert(rolled.drop_last().take(upto) == rolled.take(upto));
        lemma_dice_fit_from_start(rolled.drop_last(), upto);
    } else {
        assert(rolled.take(upto) == rolled);
    }
}

/// A total that can be added up can be added up to any place on the way.
proof fn lemma_total_fits_from_start(results: Seq<EffectResultView>, upto: int)
    requires
        0 <= upto <= results.len(),
        total_fits(results),
    ensures
        total_fits(results.take(upto)),
    decreases results.len(),
{
    if upto < results.len() {
        assert(results.drop_last().take(upto) == results.take(upto));
        lemma_total_fits_from_start(results.drop_last(), upto);
    } else {
        assert(results.take(upto) == results);
    }
}

impl EffectResult {
    /// What the effect adds in all: its bonus and what its dice showed;
    /// nothing where that cannot be added up within the range of an `isize`.
    pub fn total_bonus(&self) -> (total: Option<isize>)
        ensures
            total == if self@.total_fits() {
                Some(self@.total_bonus() as isize)
            } else {
                None
            },
    {
        let ghost rolled = rolled_view(self.rolled_dice@);
        let mut sum: isize = 0;
        let mut i: usize = 0;
        assert(rolled.take(0) == Seq::<RolledDiceView>::empty());
        while i < self.rolled_dice.len()
            invariant
                i <= self.rolled_dice.len(),
                rolled == rolled_view(self.rolled_dice@),
                dice_fit(rolled.take(i as int)),
                sum == dice_total(rolled.take(i as int)),
            decreases self.rolled_dice.len() - i,
        {
            proof {
                assert(rolled.take(i + 1).drop_last() == rolled.take(i as int));
                assert(rolled.take(i + 1).last() == rolled[i as int]);
                if dice_fit(rolled) {
                    lemma_dice_fit_from_start(rolled, i + 1);
                }
            }
            let shown = match self.rolled_dice[i].total() {
                Some(shown) => shown,
                None => {
                    return None;
                },
            };
            match sum.checked_add(shown) {
                Some(next) => {
                    sum = next;
                },
                None => {
                    return None;
                },
            }
            i += 1;
        }
        assert(rolled.take(rolled.len() as int) == rolled);
        self.bonus.checked_add(sum)
    }
}

impl RollResult {
    /// The total of the roll: the sum of what each effect adds; nothing
    /// where that cannot be added up within the range of an `isize`.
    pub fn total(&self) -> (total: Option<isize>)
        ensures
            total == if total_fits(self@) {
                Some(total_of(self@) as isize)
            } else {
                None
            },
    {
        let ghost results = results_view(self.effects@);
        let mut sum: isize = 0;
        let mut i: usize = 0;
        assert(results.take(0) == Seq::<EffectResultView>::empty());
        while i < self.effects.len()
            invariant
                i <= self.effects.len(),
                results == results_view(self.effects@),
                total_fits(results.take(i as int)),
                sum == total_of(results.take(i as int)),
            decreases self.effects.len() - i,
        {
            proof {
                assert(results.take(i + 1).drop_last() == results.take(i as int));
                assert(results.take(i + 1).last() == results[i as int]);
                if total_fits(results) {
                    lemma_total_fits_from_start(results, i + 1);
                }
            }
            let added = match self.effects[i].total_bonus() {
                Some(added) => added,
                None => {
                    return None;
                },
            };
            match sum.checked_add(added) {
                Some(next) => {
                    sum = next;
                },
                None => {
                    return None;
                },
            }
            i += 1;
        }
        assert(results.take(results.len() as int) == results);
        Some(sum)
    }
}

/// A result that is put into a list adds what it adds, wherever it is put.
pub proof fn lemma_total_of_insert(results: Seq<EffectResultView>, place: int, result: EffectResultView)
    requires
        0 <= place <= results.len(),
    ensures
        total_of(results.insert(place, result)) == total_of(results) + result.total_bonus(),
    decreases results.len(),
{
    let inserted = results.insert(place, result);
    if place == results.len() {
        assert(inserted.drop_last() == results);
    } else {
        assert(inserted.drop_last() == results.drop_last().insert(place, result));
        assert(inserted.last() == results.last());
        lemma_total_of_insert(results.drop_last(), place, result);
    }
}

/// The total of a roll does not depend on the order of its results: sorting
/// leaves it as it was.
pub proof fn lemma_sort_keeps_total(results: Seq<EffectResultView>)
    ensures
        total_of(sort_by_path(results)) == total_of(results),
    decreases results.len(),
{
    if results.len() > 0 {
        let earlier = sort_by_path(results.drop_last());
        lemma_sort_keeps_total(results.drop_last());
        lemma_insertion_place_bounds(earlier, results.last().path);
        lemma_total_of_insert(earlier, insertion_place(earlier, results.last().path), results.last());
    }
}

} // verus!
