use dnd_cli::domain::ability_score::{Ability, AbilityScore, AbilityScores};
use dnd_cli::domain::character::{Character, CharacterClass, Feature};
use dnd_cli::domain::effect::{Effect, RollBonus, RollScope};
use dnd_cli::domain::hit_points::HitPoints;
use dnd_cli::domain::inventory::Inventory;
use dnd_cli::domain::roll::{sort_results, Dice, EffectResult, Roll, RollResult, RolledDice};

fn path(segments: &[&str]) -> Vec<String> {
    segments.iter().map(|segment| segment.to_string()).collect()
}

fn effect(bonus: RollBonus, scope: &[&str]) -> Effect {
    Effect::Roll { bonus, scope: RollScope { path: Some(path(scope)), ability: None, range: None } }
}

fn feature(effects: Vec<Effect>, children: Vec<(&str, Feature)>) -> Feature {
    Feature {
        children: children.into_iter().map(|(name, child)| (name.to_string(), child)).collect(),
        roll: None,
        effects,
    }
}

fn character(levels: &[isize], features: Vec<(&str, Feature)>) -> Character {
    let scores = AbilityScores::default()
        .with(Ability::Dexterity, AbilityScore::of(16))
        .with(Ability::Wisdom, AbilityScore::of(7));
    Character::new(
        scores,
        levels.iter().map(|level| CharacterClass::new("class".to_string(), *level)).collect(),
        features.into_iter().map(|(name, feature)| (name.to_string(), feature)).collect(),
        Inventory::default(),
        HitPoints::default(),
    )
}

fn plain(result: &EffectResult) -> (Vec<String>, usize, isize) {
    (result.path().clone(), result.rolled_dice().len(), result.bonus())
}

#[test]
fn dice_show_a_face_each() {
    let rolled = Dice { count: 200, sides: 6 }.roll();
    assert_eq!(rolled.dice(), Dice { count: 200, sides: 6 });
    assert_eq!(rolled.results().len(), 200);
    assert!(rolled.results().iter().all(|face| 1 <= *face && *face <= 6));
    let first = rolled.results()[0];
    assert!(rolled.results().iter().any(|face| *face != first));
}

#[test]
fn a_die_with_one_side_always_shows_one() {
    let rolled = Dice { count: 5, sides: 1 }.roll();
    assert_eq!(rolled.results(), &vec![1, 1, 1, 1, 1]);
    assert_eq!(rolled.total(), Some(5));
}

#[test]
fn no_dice_give_no_results() {
    assert_eq!(Dice { count: 0, sides: 6 }.roll().results().len(), 0);
    assert_eq!(Dice { count: -3, sides: 6 }.roll().results().len(), 0);
    assert_eq!(Dice { count: 0, sides: 0 }.roll().results().len(), 0);
    assert_eq!(Dice { count: -1, sides: -1 }.roll().results().len(), 0);
}

#[test]
fn a_roll_throws_each_of_its_dice() {
    let roll = Roll::new(vec![Dice { count: 2, sides: 4 }, Dice { count: 1, sides: 20 }]);
    assert!(roll.can_roll());
    let rolled = roll.roll();
    assert_eq!(rolled.len(), 2);
    assert_eq!(rolled[0].dice(), Dice { count: 2, sides: 4 });
    assert_eq!(rolled[0].results().len(), 2);
    assert!(rolled[0].results().iter().all(|face| 1 <= *face && *face <= 4));
    assert_eq!(rolled[1].dice(), Dice { count: 1, sides: 20 });
    assert_eq!(rolled[1].results().len(), 1);
    assert!(rolled[1].results().iter().all(|face| 1 <= *face && *face <= 20));
}

#[test]
fn dice_without_sides_cannot_be_thrown() {
    assert!(!Roll::new(vec![Dice { count: 1, sides: 6 }, Dice { count: 1, sides: 0 }]).can_roll());
    assert!(!Roll::new(vec![Dice { count: 2, sides: -4 }]).can_roll());
    assert!(Roll::new(vec![Dice { count: 0, sides: 0 }]).can_roll());
    assert!(Roll::new(Vec::new()).can_roll());
}

#[test]
fn all_effects_walks_the_tree_from_the_top() {
    let subject = character(
        &[3],
        vec![
            (
                "rogue",
                feature(
                    vec![effect(RollBonus::Modifier(1), &["skill"])],
                    vec![
                        ("expertise", feature(vec![effect(RollBonus::Modifier(2), &["skill"])], vec![])),
                        ("cunning", feature(vec![], vec![])),
                    ],
                ),
            ),
            (
                "elf",
                feature(
                    vec![
                        effect(RollBonus::Proficiency, &["skill", "perception"]),
                        effect(RollBonus::Modifier(3), &["attack"]),
                    ],
                    vec![],
                ),
            ),
        ],
    );
    let effects = subject.all_effects();
    let found: Vec<(Vec<String>, RollBonus)> = effects
        .into_iter()
        .map(|(source, effect)| match effect {
            Effect::Roll { bonus, .. } => (source, bonus),
        })
        .collect();
    assert_eq!(
        found,
        vec![
            (path(&["rogue"]), RollBonus::Modifier(1)),
            (path(&["rogue", "expertise"]), RollBonus::Modifier(2)),
            (path(&["elf"]), RollBonus::Proficiency),
            (path(&["elf"]), RollBonus::Modifier(3)),
        ]
    );
}

#[test]
fn a_feature_tags_its_effects_with_its_path() {
    let tree = feature(
        vec![effect(RollBonus::Modifier(1), &["a"])],
        vec![("child", feature(vec![effect(RollBonus::Modifier(2), &["b"])], vec![]))],
    );
    let effects = tree.all_effects(path(&["root", "here"]));
    assert_eq!(effects.len(), 2);
    assert_eq!(effects[0].0, path(&["root", "here"]));
    assert_eq!(effects[1].0, path(&["root", "here", "child"]));
    assert_eq!(effects[1].1, effect(RollBonus::Modifier(2), &["b"]));
    assert_eq!(feature(vec![], vec![]).all_effects(Vec::new()).len(), 0);
}

#[test]
fn only_matching_effects_count() {
    let subject = character(
        &[1],
        vec![(
            "rogue",
            feature(
                vec![
                    effect(RollBonus::Modifier(1), &["skill", "stealth"]),
                    effect(RollBonus::Modifier(5), &["skill", "perception"]),
                    effect(RollBonus::Modifier(7), &["skill"]),
                    Effect::Roll { bonus: RollBonus::Modifier(9), scope: RollScope::default() },
                ],
                vec![],
            ),
        )],
    );
    let matched = Roll::matching_bonuses(&path(&["skill", "stealth"]), &subject);
    assert_eq!(
        matched,
        vec![(path(&["rogue"]), RollBonus::Modifier(1)), (path(&["rogue"]), RollBonus::Modifier(7))]
    );
    let result = Roll::calculate(&path(&["skill", "stealth"]), &subject);
    assert_eq!(result.effects().len(), 2);
    assert_eq!(result.total(), Some(8));
    assert_eq!(Roll::calculate(&path(&["attack"]), &subject).effects().len(), 0);
    assert_eq!(Roll::calculate(&path(&["attack"]), &subject).total(), Some(0));
}

#[test]
fn proficiency_does_not_stack() {
    let subject = character(
        &[3, 2],
        vec![
            ("rogue", feature(vec![effect(RollBonus::Proficiency, &["skill", "stealth"])], vec![])),
            ("elf", feature(vec![effect(RollBonus::Proficiency, &["skill", "stealth"])], vec![])),
        ],
    );
    let result = Roll::calculate(&path(&["skill", "stealth"]), &subject);
    assert_eq!(result.effects().len(), 1);
    assert_eq!(plain(&result.effects()[0]), (path(&["rogue"]), 0, 3));
    assert_eq!(result.total(), Some(3));
}

#[test]
fn proficiency_comes_from_the_first_feature_that_grants_it() {
    let subject = character(
        &[1],
        vec![
            ("zeal", feature(vec![effect(RollBonus::Proficiency, &["skill"])], vec![])),
            ("aim", feature(vec![effect(RollBonus::Proficiency, &["skill"])], vec![])),
            ("luck", feature(vec![effect(RollBonus::Modifier(1), &["skill"])], vec![])),
        ],
    );
    let result = Roll::calculate(&path(&["skill", "arcana"]), &subject);
    let found: Vec<(Vec<String>, usize, isize)> = result.effects().iter().map(plain).collect();
    assert_eq!(found, vec![(path(&["luck"]), 0, 1), (path(&["zeal"]), 0, 2)]);
}

#[test]
fn every_kind_of_bonus_gives_its_result() {
    let subject = character(
        &[5],
        vec![
            (
                "rogue",
                feature(
                    vec![
                        effect(RollBonus::Ability(Ability::Dexterity), &["skill", "stealth"]),
                        effect(RollBonus::Proficiency, &["skill", "stealth"]),
                        effect(
                            RollBonus::Roll(Roll::new(vec![
                                Dice { count: 2, sides: 1 },
                                Dice { count: 1, sides: 1 },
                            ])),
                            &["skill", "stealth"],
                        ),
                    ],
                    vec![],
                ),
            ),
            ("cloak", feature(vec![effect(RollBonus::Modifier(-1), &["skill", "stealth"])], vec![])),
        ],
    );
    let result = Roll::calculate(&path(&["skill", "stealth"]), &subject);
    let found: Vec<(Vec<String>, usize, isize)> = result.effects().iter().map(plain).collect();
    assert_eq!(
        found,
        vec![
            (path(&["cloak"]), 0, -1),
            (path(&["rogue"]), 2, 0),
            (path(&["rogue"]), 0, 3),
            (path(&["rogue", "Dexterity"]), 0, 3),
        ]
    );
    assert_eq!(result.effects()[1].rolled_dice()[0].results(), &vec![1, 1]);
    assert_eq!(result.effects()[1].rolled_dice()[1].results(), &vec![1]);
    assert_eq!(result.total(), Some(8));
}

#[test]
fn assemble_uses_the_throws_that_it_is_given() {
    let subject = character(&[9], vec![]);
    let matched = vec![
        (path(&["b"]), RollBonus::Roll(Roll::new(vec![Dice { count: 2, sides: 6 }]))),
        (path(&["c"]), RollBonus::Proficiency),
        (path(&["a"]), RollBonus::Ability(Ability::Wisdom)),
        (path(&["a"]), RollBonus::Modifier(4)),
    ];
    let thrown = vec![
        vec![RolledDice::new(Dice { count: 2, sides: 6 }, vec![6, 2])],
        Vec::new(),
        vec![RolledDice::new(Dice { count: 1, sides: 4 }, vec![3])],
        Vec::new(),
    ];
    let result = Roll::assemble(&matched, thrown, &subject);
    assert_eq!(
        result,
        RollResult::new(vec![
            EffectResult::new(path(&["a"]), Vec::new(), 4),
            EffectResult::new(path(&["a", "Wisdom"]), Vec::new(), -2),
            EffectResult::new(
                path(&["b"]),
                vec![RolledDice::new(Dice { count: 2, sides: 6 }, vec![6, 2])],
                0
            ),
            EffectResult::new(path(&["c"]), Vec::new(), 4),
        ])
    );
    assert_eq!(result.total(), Some(14));
}

#[test]
fn sorting_is_by_path_and_keeps_equal_paths_in_order() {
    let results = vec![
        EffectResult::new(path(&["b"]), Vec::new(), 1),
        EffectResult::new(path(&["a", "z"]), Vec::new(), 2),
        EffectResult::new(path(&["b"]), Vec::new(), 3),
        EffectResult::new(path(&["a"]), Vec::new(), 4),
        EffectResult::new(path(&["B"]), Vec::new(), 5),
        EffectResult::new(path(&["ab"]), Vec::new(), 6),
        EffectResult::new(Vec::new(), Vec::new(), 7),
        EffectResult::new(path(&["a"]), Vec::new(), 8),
        EffectResult::new(path(&["\u{e9}"]), Vec::new(), 9),
    ];
    let mut expected: Vec<(Vec<String>, usize, isize)> = results.iter().map(plain).collect();
    expected.sort_by(|left, right| left.0.cmp(&right.0));
    let sorted: Vec<(Vec<String>, usize, isize)> = sort_results(results).iter().map(plain).collect();
    assert_eq!(sorted, expected);
    let bonuses: Vec<isize> = sorted.iter().map(|result| result.2).collect();
    assert_eq!(bonuses, vec![7, 5, 4, 8, 2, 6, 1, 3, 9]);
}

#[test]
fn totals_add_bonus_and_faces() {
    let thrown = vec![
        RolledDice::new(Dice { count: 2, sides: 6 }, vec![6, 2]),
        RolledDice::new(Dice { count: 1, sides: 8 }, vec![5]),
    ];
    let first = EffectResult::new(path(&["a"]), thrown, -3);
    assert_eq!(first.total_bonus(), Some(10));
    let second = EffectResult::new(path(&["b"]), Vec::new(), 4);
    assert_eq!(second.total_bonus(), Some(4));
    assert_eq!(RollResult::new(vec![first, second]).total(), Some(14));
    assert_eq!(RollResult::new(Vec::new()).total(), Some(0));
}

#[test]
fn totals_that_leave_the_machine_range_are_not_given() {
    let huge = RolledDice::new(Dice { count: 2, sides: 6 }, vec![isize::MAX, 1]);
    assert_eq!(huge.total(), None);
    assert_eq!(EffectResult::new(Vec::new(), vec![huge], -5).total_bonus(), None);
    let back = RolledDice::new(Dice { count: 3, sides: 6 }, vec![isize::MAX, 1, -1]);
    assert_eq!(back.total(), None);
    let edge = EffectResult::new(Vec::new(), Vec::new(), isize::MAX);
    assert_eq!(edge.total_bonus(), Some(isize::MAX));
    let one = EffectResult::new(Vec::new(), Vec::new(), 1);
    assert_eq!(RollResult::new(vec![edge.clone(), one]).total(), None);
    let less = EffectResult::new(Vec::new(), Vec::new(), -1);
    assert_eq!(RollResult::new(vec![edge, less]).total(), Some(isize::MAX - 1));
}

#[test]
fn rolls_that_cannot_be_made_are_told_apart() {
    let broken = character(
        &[1],
        vec![(
            "curse",
            feature(
                vec![effect(RollBonus::Roll(Roll::new(vec![Dice { count: 1, sides: 0 }])), &["attack"])],
                vec![],
            ),
        )],
    );
    assert!(!Roll::can_calculate(&path(&["attack"]), &broken));
    assert_eq!(Roll::checked_calculate(&path(&["attack"]), &broken), None);
    assert!(Roll::can_calculate(&path(&["skill"]), &broken));
    assert_eq!(Roll::checked_calculate(&path(&["skill"]), &broken), Some(RollResult::new(Vec::new())));

    let levels = character(
        &[isize::MAX, 1],
        vec![
            ("rogue", feature(vec![effect(RollBonus::Proficiency, &["skill"])], vec![])),
            ("cloak", feature(vec![effect(RollBonus::Modifier(1), &["attack"])], vec![])),
        ],
    );
    assert!(!levels.has_total_level());
    assert!(!Roll::can_calculate(&path(&["skill"]), &levels));
    assert!(Roll::can_calculate(&path(&["attack"]), &levels));
    assert_eq!(Roll::calculate(&path(&["attack"]), &levels).total(), Some(1));
}
