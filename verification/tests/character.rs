use dnd_cli::domain::ability_score::{Ability, AbilityScore, AbilityScores};
use dnd_cli::domain::character::{Character, CharacterClass, Feature};
use dnd_cli::domain::hit_points::HitPoints;
use dnd_cli::domain::inventory::{AddItemResult, Inventory, InventoryItem};

fn with_levels(levels: &[isize]) -> Character {
    Character::new(
        AbilityScores::default(),
        levels.iter().map(|level| CharacterClass::new("class".to_string(), *level)).collect(),
        Vec::new(),
        Inventory::default(),
        HitPoints::default(),
    )
}

#[test]
fn total_level_is_the_sum_of_the_levels() {
    assert_eq!(with_levels(&[]).total_level(), 0);
    assert_eq!(with_levels(&[3]).total_level(), 3);
    assert_eq!(with_levels(&[3, 2, 7]).total_level(), 12);
    assert_eq!(with_levels(&[isize::MAX, 5, -5]).total_level(), isize::MAX);
    assert_eq!(with_levels(&[isize::MIN, -1, 1]).total_level(), isize::MIN);
}

#[test]
fn total_levels_that_cannot_be_held_are_found() {
    assert!(with_levels(&[3, 2]).has_total_level());
    assert!(with_levels(&[isize::MAX, 5, -5]).has_total_level());
    assert!(!with_levels(&[isize::MAX, 1]).has_total_level());
    assert!(!with_levels(&[isize::MIN, -1]).has_total_level());
}

#[test]
fn proficiency_bonus_by_level() {
    let table: Vec<(isize, isize)> = vec![
        (-7, 2),
        (0, 2),
        (1, 2),
        (4, 2),
        (5, 3),
        (8, 3),
        (9, 4),
        (12, 4),
        (13, 5),
        (16, 5),
        (17, 6),
        (20, 6),
        (21, 7),
        (23, 7),
        (24, 8),
        (27, 8),
        (28, 9),
        (100, 27),
    ];
    for (level, bonus) in table {
        assert_eq!(with_levels(&[level]).proficiency_bonus(), bonus, "level {}", level);
    }
    assert_eq!(with_levels(&[10, 7]).proficiency_bonus(), 6);
}

#[test]
fn a_new_character_is_empty() {
    let (scores, classes, features, inventory, hit_points) = Character::default().into_parts();
    assert_eq!(scores, AbilityScores::default());
    assert_eq!(classes.len(), 0);
    assert_eq!(features.len(), 0);
    assert_eq!(inventory, Inventory::default());
    assert_eq!(hit_points, HitPoints::default());
}

#[test]
fn a_character_gives_back_its_parts() {
    let scores = AbilityScores::default().with(Ability::Charisma, AbilityScore::of(14));
    let mut inventory = Inventory::default();
    inventory.add_item(vec!["rope".to_string()], 2);
    let subject = Character::new(
        scores,
        vec![CharacterClass::new("bard".to_string(), 4)],
        vec![("song".to_string(), Feature { children: Vec::new(), roll: None, effects: Vec::new() })],
        inventory.clone(),
        HitPoints::new(7, 9, 1),
    );
    assert_eq!(subject.get_ability_score(Ability::Charisma), AbilityScore::of(14));
    assert_eq!(subject.get_ability_score(Ability::Strength), AbilityScore::of(10));
    assert_eq!(subject.clone(), subject);
    let (got_scores, classes, features, got_inventory, hit_points) = subject.into_parts();
    assert_eq!(got_scores, scores);
    assert_eq!(classes, vec![CharacterClass::new("bard".to_string(), 4)]);
    assert_eq!(classes[0].name(), "bard");
    assert_eq!(classes[0].level(), 4);
    assert_eq!(features.len(), 1);
    assert_eq!(got_inventory, inventory);
    assert_eq!(hit_points, HitPoints::new(7, 9, 1));
}

#[test]
fn the_inventory_and_the_hit_points_change_in_place() {
    let mut subject = with_levels(&[1]);
    assert_eq!(
        subject.inventory().add_item(vec!["rope".to_string()], 2),
        AddItemResult::Success { path: vec!["rope".to_string()], requested: 2, available: 2 }
    );
    subject.hit_points().increase_max(8);
    subject.hit_points().add_current(5);
    assert_eq!(
        subject.inventory().items(),
        &vec![("rope".to_string(), InventoryItem::Object { count: 2 })]
    );
    assert_eq!(*subject.hit_points(), HitPoints::new(5, 8, 0));
}

#[test]
fn with_replaces_one_part_of_the_character() {
    let subject = with_levels(&[2, 3]);
    let mut inventory = Inventory::default();
    inventory.add_container(vec!["pack".to_string()]);
    let packed = subject.with_inventory(inventory.clone());
    assert_eq!(packed.total_level(), 5);
    let hurt = packed.with_hit_points(HitPoints::new(1, 9, 0));
    let (_, classes, _, got_inventory, hit_points) = hurt.into_parts();
    assert_eq!(classes.len(), 2);
    assert_eq!(got_inventory, inventory);
    assert_eq!(hit_points, HitPoints::new(1, 9, 0));
    let (_, _, _, old_inventory, old_hit_points) = subject.into_parts();
    assert_eq!(old_inventory, Inventory::default());
    assert_eq!(old_hit_points, HitPoints::default());
}

#[test]
fn features_are_found_by_name() {
    let leaf = |roll| Feature { children: Vec::new(), roll, effects: Vec::new() };
    let subject = Character::new(
        AbilityScores::default(),
        Vec::new(),
        vec![
            ("rage".to_string(), leaf(None)),
            (
                "smite".to_string(),
                leaf(Some(dnd_cli::domain::roll::Roll::new(vec![dnd_cli::domain::roll::Dice {
                    count: 2,
                    sides: 8,
                }]))),
            ),
            ("rage".to_string(), leaf(Some(dnd_cli::domain::roll::Roll::new(Vec::new())))),
        ],
        Inventory::default(),
        HitPoints::default(),
    );
    assert_eq!(subject.get_feature(&"rage".to_string()), Some(&leaf(None)));
    assert_eq!(
        subject.get_feature(&"smite".to_string()).map(|feature| feature.roll.is_some()),
        Some(true)
    );
    assert_eq!(subject.get_feature(&"Rage".to_string()), None);
    assert_eq!(subject.get_feature(&"".to_string()), None);
}
