use dnd_cli::domain::ability_score::Ability;
use dnd_cli::domain::effect::{Effect, Range, RollBonus, RollScope};

fn path(segments: &[&str]) -> Vec<String> {
    segments.iter().map(|segment| segment.to_string()).collect()
}

fn scope(segments: &[&str]) -> RollScope {
    RollScope { path: Some(path(segments)), ability: None, range: None }
}

#[test]
fn a_scope_matches_its_path_and_what_begins_with_it() {
    let stealth = scope(&["skill", "stealth"]);
    assert!(stealth.matches(&path(&["skill", "stealth"])));
    assert!(stealth.matches(&path(&["skill", "stealth", "extra"])));
    assert!(!stealth.matches(&path(&["skill", "perception"])));
}

#[test]
fn a_scope_does_not_match_a_shorter_path() {
    let stealth = scope(&["skill", "stealth"]);
    assert!(!stealth.matches(&path(&["skill"])));
    assert!(!stealth.matches(&Vec::new()));
}

#[test]
fn a_scope_compares_whole_segments() {
    assert!(!scope(&["skill"]).matches(&path(&["skills"])));
    assert!(!scope(&["skill", "stealth"]).matches(&path(&["skill", "stealthy"])));
    assert!(!scope(&["skill", "stealth"]).matches(&path(&["Skill", "stealth"])));
}

#[test]
fn a_scope_without_a_path_matches_nothing() {
    let open = RollScope::default();
    assert_eq!(open, RollScope { path: None, ability: None, range: None });
    assert!(!open.matches(&path(&["skill", "stealth"])));
    assert!(!open.matches(&Vec::new()));
    let filtered = RollScope {
        path: None,
        ability: Some(Ability::Dexterity),
        range: Some(Range::Ranged { normal: 30, long: 120 }),
    };
    assert!(!filtered.matches(&path(&["skill", "stealth"])));
}

#[test]
fn a_scope_with_an_empty_path_matches_everything() {
    let all = scope(&[]);
    assert!(all.matches(&Vec::new()));
    assert!(all.matches(&path(&["skill"])));
    assert!(all.matches(&path(&["saving-throw", "wisdom"])));
}

#[test]
fn copies_of_effects_are_equal() {
    let effect = Effect::Roll {
        bonus: RollBonus::Ability(Ability::Wisdom),
        scope: RollScope {
            path: Some(path(&["skill", "insight"])),
            ability: Some(Ability::Wisdom),
            range: Some(Range::Melee),
        },
    };
    assert_eq!(effect.clone(), effect);
    assert_eq!(RollBonus::Modifier(-2).clone(), RollBonus::Modifier(-2));
    assert_eq!(RollBonus::Proficiency.clone(), RollBonus::Proficiency);
}

#[test]
fn create_skills() {
    let skills: Vec<(&str, Ability)> = vec![
        ("Acrobatics", Ability::Dexterity),
        ("Arcana", Ability::Intelligence),
        ("Athletics", Ability::Strength),
        ("Insight", Ability::Wisdom),
        ("Persuasion", Ability::Charisma),
    ];
    let effects = skills
        .iter()
        .map(|(name, ability)| Effect::Roll {
            bonus: RollBonus::Ability(*ability),
            scope: RollScope {
                path: Some(vec!["skill".to_string(), name.to_lowercase()]),
                ..RollScope::default()
            },
        })
        .collect::<Vec<Effect>>();

    println!("{:?}", effects);
    assert_eq!(effects.len(), skills.len());
    assert_eq!(
        effects[1],
        Effect::Roll {
            bonus: RollBonus::Ability(Ability::Intelligence),
            scope: RollScope { path: Some(path(&["skill", "arcana"])), ability: None, range: None },
        }
    );
    for effect in effects.iter() {
        match effect {
            Effect::Roll { scope, .. } => {
                assert!(scope.matches(scope.path.as_ref().unwrap()));
                assert!(!scope.matches(&path(&["skill"])));
            }
        }
    }
}
