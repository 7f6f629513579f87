use dnd_cli::domain::ability_score::{Ability, AbilityScore, AbilityScores};

fn assert_modfier(value: isize, modifier: isize) {
    assert_eq!(
        AbilityScore::of(value).modifier(),
        modifier,
        "Expected modifier for ability score {} to be {}",
        value,
        modifier
    )
}

#[test]
fn test_modifier() {
    let table: Vec<(isize, isize)> = vec![
        (4, -3),
        (5, -3),
        (6, -2),
        (7, -2),
        (8, -1),
        (9, -1),
        (10, 0),
        (11, 0),
        (12, 1),
        (13, 1),
        (14, 2),
        (15, 2),
        (16, 3),
        (17, 3),
        (18, 4),
        (19, 4),
        (20, 5),
        (21, 5),
        (22, 6),
        (23, 6),
    ];
    for (value, modifier) in table {
        assert_modfier(value, modifier);
    }
}

#[test]
fn modifier_rounds_down_on_both_sides_of_ten() {
    let mut value: isize = -50;
    while value <= 50 {
        let expected = (value - 10).div_euclid(2);
        assert_eq!(AbilityScore::of(value).modifier(), expected, "score {}", value);
        value += 1;
    }
}

#[test]
fn modifier_of_extreme_scores() {
    assert_eq!(AbilityScore::of(isize::MAX).modifier(), (isize::MAX - 10) / 2);
    assert_eq!(AbilityScore::of(isize::MIN).modifier(), isize::MIN / 2 - 5);
    assert_eq!(AbilityScore::of(0).modifier(), -5);
    assert_eq!(AbilityScore::of(1).modifier(), -5);
    assert_eq!(AbilityScore::of(-1).modifier(), -6);
}

#[test]
fn default_score_is_ten() {
    assert_eq!(AbilityScore::default(), AbilityScore::of(10));
    assert_eq!(AbilityScore::default().value(), 10);
    assert_eq!(AbilityScore::default().modifier(), 0);
}

#[test]
fn ability_of_reads_full_and_short_names() {
    let names: Vec<(&str, Ability)> = vec![
        ("strength", Ability::Strength),
        ("str", Ability::Strength),
        ("dexterity", Ability::Dexterity),
        ("dex", Ability::Dexterity),
        ("constitution", Ability::Constitution),
        ("con", Ability::Constitution),
        ("intelligence", Ability::Intelligence),
        ("int", Ability::Intelligence),
        ("wisdom", Ability::Wisdom),
        ("wis", Ability::Wisdom),
        ("charisma", Ability::Charisma),
        ("cha", Ability::Charisma),
    ];
    for (name, ability) in names {
        assert_eq!(Ability::of(name.to_string()), Some(ability));
        assert_eq!(Ability::of_lowercase(name), Some(ability));
    }
}

#[test]
fn ability_of_ignores_case() {
    assert_eq!(Ability::of("STRENGTH".to_string()), Some(Ability::Strength));
    assert_eq!(Ability::of("Dex".to_string()), Some(Ability::Dexterity));
    assert_eq!(Ability::of("wIsDoM".to_string()), Some(Ability::Wisdom));
}

#[test]
fn ability_of_lowercase_does_not_fold_case() {
    assert_eq!(Ability::of_lowercase("STRENGTH"), None);
    assert_eq!(Ability::of_lowercase("Dex"), None);
}

#[test]
fn ability_of_refuses_other_names() {
    assert_eq!(Ability::of("".to_string()), None);
    assert_eq!(Ability::of("luck".to_string()), None);
    assert_eq!(Ability::of("stre".to_string()), None);
    assert_eq!(Ability::of(" strength".to_string()), None);
}

#[test]
fn ability_names_are_capitalised() {
    assert_eq!(Ability::Strength.name(), "Strength");
    assert_eq!(Ability::Dexterity.name(), "Dexterity");
    assert_eq!(Ability::Constitution.name(), "Constitution");
    assert_eq!(Ability::Intelligence.name(), "Intelligence");
    assert_eq!(Ability::Wisdom.name(), "Wisdom");
    assert_eq!(Ability::Charisma.name(), "Charisma");
}

fn all_abilities() -> Vec<Ability> {
    vec![
        Ability::Strength,
        Ability::Dexterity,
        Ability::Constitution,
        Ability::Intelligence,
        Ability::Wisdom,
        Ability::Charisma,
    ]
}

#[test]
fn default_scores_are_all_ten() {
    let scores = AbilityScores::default();
    for ability in all_abilities() {
        assert_eq!(scores.get(ability), AbilityScore::of(10));
    }
}

#[test]
fn with_replaces_one_score_and_keeps_the_others() {
    let scores = AbilityScores::default();
    for changed in all_abilities() {
        let updated = scores.with(changed, AbilityScore::of(17));
        for ability in all_abilities() {
            let expected = if ability == changed { 17 } else { 10 };
            assert_eq!(updated.get(ability).value(), expected);
        }
        assert_eq!(scores.get(changed).value(), 10);
    }
}

#[test]
fn with_can_be_chained() {
    let scores = AbilityScores::default()
        .with(Ability::Strength, AbilityScore::of(18))
        .with(Ability::Wisdom, AbilityScore::of(7))
        .with(Ability::Strength, AbilityScore::of(8));
    assert_eq!(scores.get(Ability::Strength).modifier(), -1);
    assert_eq!(scores.get(Ability::Wisdom).modifier(), -2);
    assert_eq!(scores.get(Ability::Charisma).modifier(), 0);
}
