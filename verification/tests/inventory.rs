use dnd_cli::domain::inventory::{
    AddContainerResult, AddItemResult, Inventory, InventoryItem,
};

fn path(segments: &[&str]) -> Vec<String> {
    segments.iter().map(|segment| segment.to_string()).collect()
}

fn count_at(inventory: &Inventory, segments: &[&str]) -> Option<isize> {
    match inventory.get(&path(segments)) {
        Some(InventoryItem::Object { count }) => Some(*count),
        _ => None,
    }
}

#[test]
fn empty_path_is_invalid_for_any_amount() {
    let amounts: Vec<isize> = vec![0, 1, -1, 5, -10, isize::MAX, isize::MIN];
    for amount in amounts {
        let mut inventory = Inventory::default();
        inventory.add_item(path(&["rope"]), 5);
        let before = inventory.clone();
        assert_eq!(
            inventory.add_item(Vec::new(), amount),
            AddItemResult::InvalidPath { path: Vec::new() }
        );
        assert_eq!(inventory, before);
    }
}

#[test]
fn adding_to_an_empty_inventory_creates_the_object() {
    let mut inventory = Inventory::default();
    assert_eq!(
        inventory.add_item(path(&["rope"]), 5),
        AddItemResult::Success { path: path(&["rope"]), requested: 5, available: 5 }
    );
    assert_eq!(
        inventory.items(),
        &vec![("rope".to_string(), InventoryItem::Object { count: 5 })]
    );
    assert_eq!(count_at(&inventory, &["rope"]), Some(5));
}

#[test]
fn taking_more_than_there_is_changes_nothing() {
    let mut inventory = Inventory::default();
    inventory.add_item(path(&["rope"]), 5);
    assert_eq!(
        inventory.add_item(path(&["rope"]), -10),
        AddItemResult::InsufficientInventory { path: path(&["rope"]), requested: -10, available: 5 }
    );
    assert_eq!(count_at(&inventory, &["rope"]), Some(5));
}

#[test]
fn adding_and_taking_changes_the_count() {
    let mut inventory = Inventory::default();
    inventory.add_item(path(&["rope"]), 5);
    assert_eq!(
        inventory.add_item(path(&["rope"]), 3),
        AddItemResult::Success { path: path(&["rope"]), requested: 3, available: 8 }
    );
    assert_eq!(
        inventory.add_item(path(&["rope"]), -8),
        AddItemResult::Success { path: path(&["rope"]), requested: -8, available: 0 }
    );
    assert_eq!(count_at(&inventory, &["rope"]), Some(0));
    assert_eq!(
        inventory.add_item(path(&["rope"]), -1),
        AddItemResult::InsufficientInventory { path: path(&["rope"]), requested: -1, available: 0 }
    );
}

#[test]
fn an_object_that_is_used_up_stays_listed() {
    let mut inventory = Inventory::default();
    inventory.add_item(path(&["torch"]), 2);
    inventory.add_item(path(&["torch"]), -2);
    assert_eq!(
        inventory.items(),
        &vec![("torch".to_string(), InventoryItem::Object { count: 0 })]
    );
}

#[test]
fn an_object_can_be_created_with_a_negative_count() {
    let mut inventory = Inventory::default();
    assert_eq!(
        inventory.add_item(path(&["debt"]), -4),
        AddItemResult::Success { path: path(&["debt"]), requested: -4, available: -4 }
    );
    assert_eq!(count_at(&inventory, &["debt"]), Some(-4));
    assert_eq!(
        inventory.add_item(path(&["debt"]), 3),
        AddItemResult::InsufficientInventory { path: path(&["debt"]), requested: 3, available: -4 }
    );
    assert_eq!(
        inventory.add_item(path(&["debt"]), 4),
        AddItemResult::Success { path: path(&["debt"]), requested: 4, available: 0 }
    );
}

#[test]
fn creating_a_container_twice_collides() {
    let mut inventory = Inventory::default();
    assert_eq!(
        inventory.add_container(path(&["pack"])),
        AddContainerResult::Success { path: path(&["pack"]) }
    );
    let after_first = inventory.clone();
    assert_eq!(
        inventory.add_container(path(&["pack"])),
        AddContainerResult::Collision { path: path(&["pack"]) }
    );
    assert_eq!(inventory, after_first);
    assert_eq!(
        inventory.items(),
        &vec![("pack".to_string(), InventoryItem::Container { items: Vec::new() })]
    );
}

#[test]
fn adding_below_a_missing_container_is_refused() {
    let mut inventory = Inventory::default();
    assert_eq!(
        inventory.add_item(path(&["pack", "rope"]), 3),
        AddItemResult::ContainerDoesNotExistFor { path: path(&["pack", "rope"]) }
    );
    assert_eq!(inventory, Inventory::default());
}

#[test]
fn adding_below_a_container_that_exists() {
    let mut inventory = Inventory::default();
    inventory.add_container(path(&["pack"]));
    assert_eq!(
        inventory.add_item(path(&["pack", "rope"]), 3),
        AddItemResult::Success { path: path(&["pack", "rope"]), requested: 3, available: 3 }
    );
    assert_eq!(
        inventory.items(),
        &vec![(
            "pack".to_string(),
            InventoryItem::Container {
                items: vec![("rope".to_string(), InventoryItem::Object { count: 3 })]
            }
        )]
    );
    assert_eq!(count_at(&inventory, &["pack", "rope"]), Some(3));
    assert_eq!(count_at(&inventory, &["rope"]), None);
}

#[test]
fn outcomes_deep_in_the_tree_report_the_whole_path() {
    let mut inventory = Inventory::default();
    inventory.add_container(path(&["pack"]));
    inventory.add_container(path(&["pack", "pouch"]));
    inventory.add_item(path(&["pack", "pouch", "gem"]), 2);
    assert_eq!(
        inventory.add_item(path(&["pack", "pouch", "gem"]), -3),
        AddItemResult::InsufficientInventory {
            path: path(&["pack", "pouch", "gem"]),
            requested: -3,
            available: 2
        }
    );
    assert_eq!(
        inventory.add_item(path(&["pack", "pouch", "gem", "facet"]), 1),
        AddItemResult::ObjectAtSubpath { path: path(&["pack", "pouch", "gem", "facet"]) }
    );
    assert_eq!(
        inventory.add_item(path(&["pack", "pouch"]), 1),
        AddItemResult::CannotAddOrRemoveContainer { path: path(&["pack", "pouch"]) }
    );
    assert_eq!(
        inventory.add_item(path(&["pack", "sack", "gem"]), 1),
        AddItemResult::ContainerDoesNotExistFor { path: path(&["pack", "sack", "gem"]) }
    );
    assert_eq!(
        inventory.add_item(path(&["pack", "pouch", "gem"]), 5),
        AddItemResult::Success {
            path: path(&["pack", "pouch", "gem"]),
            requested: 5,
            available: 7
        }
    );
    assert_eq!(count_at(&inventory, &["pack", "pouch", "gem"]), Some(7));
}

#[test]
fn a_container_cannot_be_counted() {
    let mut inventory = Inventory::default();
    inventory.add_container(path(&["pack"]));
    let before = inventory.clone();
    assert_eq!(
        inventory.add_item(path(&["pack"]), 1),
        AddItemResult::CannotAddOrRemoveContainer { path: path(&["pack"]) }
    );
    assert_eq!(inventory, before);
}

#[test]
fn an_object_is_no_container() {
    let mut inventory = Inventory::default();
    inventory.add_item(path(&["rope"]), 1);
    let before = inventory.clone();
    assert_eq!(
        inventory.add_item(path(&["rope", "strand"]), 1),
        AddItemResult::ObjectAtSubpath { path: path(&["rope", "strand"]) }
    );
    assert_eq!(
        inventory.add_container(path(&["rope", "strand"])),
        AddContainerResult::ExpectedContainer { path: path(&["rope", "strand"]) }
    );
    assert_eq!(
        inventory.add_container(path(&["rope"])),
        AddContainerResult::Collision { path: path(&["rope"]) }
    );
    assert_eq!(inventory, before);
}

#[test]
fn containers_need_their_parents() {
    let mut inventory = Inventory::default();
    assert_eq!(
        inventory.add_container(path(&["pack", "pouch"])),
        AddContainerResult::NoSuchParent { path: path(&["pack", "pouch"]) }
    );
    assert_eq!(
        inventory.add_container(Vec::new()),
        AddContainerResult::PathIsEmpty { path: Vec::new() }
    );
    assert_eq!(inventory, Inventory::default());
    inventory.add_container(path(&["pack"]));
    assert_eq!(
        inventory.add_container(path(&["pack", "pouch", "pocket"])),
        AddContainerResult::NoSuchParent { path: path(&["pack", "pouch", "pocket"]) }
    );
    assert_eq!(
        inventory.add_container(path(&["pack", "pouch"])),
        AddContainerResult::Success { path: path(&["pack", "pouch"]) }
    );
    assert_eq!(
        inventory.add_container(path(&["pack", "pouch", "pocket"])),
        AddContainerResult::Success { path: path(&["pack", "pouch", "pocket"]) }
    );
    assert_eq!(
        inventory.add_container(path(&["pack", "pouch", "pocket"])),
        AddContainerResult::Collision { path: path(&["pack", "pouch", "pocket"]) }
    );
}

#[test]
fn entries_keep_the_order_in_which_they_came() {
    let mut inventory = Inventory::default();
    inventory.add_item(path(&["rope"]), 1);
    inventory.add_container(path(&["pack"]));
    inventory.add_item(path(&["arrow"]), 20);
    inventory.add_item(path(&["rope"]), 1);
    let names: Vec<&str> = inventory.items().iter().map(|(name, _)| name.as_str()).collect();
    assert_eq!(names, vec!["rope", "pack", "arrow"]);
}

#[test]
fn an_item_answers_for_what_is_left_of_the_path() {
    let mut item = InventoryItem::Container {
        items: vec![("rope".to_string(), InventoryItem::Object { count: 5 })],
    };
    assert_eq!(
        item.add_item(path(&["rope"]), -2),
        AddItemResult::Success { path: Vec::new(), requested: -2, available: 3 }
    );
    assert_eq!(
        item.add_item(path(&["rope", "strand"]), 1),
        AddItemResult::ObjectAtSubpath { path: path(&["strand"]) }
    );
    assert_eq!(
        item.add_item(path(&["hook"]), 1),
        AddItemResult::Success { path: path(&["hook"]), requested: 1, available: 1 }
    );
    assert_eq!(
        item.add_item(path(&["box", "hook"]), 1),
        AddItemResult::ContainerDoesNotExistFor { path: path(&["box", "hook"]) }
    );
    let before = item.clone();
    assert_eq!(item.add_item(Vec::new(), 1), AddItemResult::InvalidPath { path: Vec::new() });
    assert_eq!(item, before);
    assert_eq!(
        item.add_item(path(&["rope", "strand", "fibre"]), 1),
        AddItemResult::ObjectAtSubpath { path: path(&["strand", "fibre"]) }
    );
    assert_eq!(
        item.add_container(Vec::new()),
        AddContainerResult::PathIsEmpty { path: Vec::new() }
    );
    assert_eq!(
        item.add_container(path(&["box"])),
        AddContainerResult::Success { path: path(&["box"]) }
    );

    assert_eq!(
        item.add_item(path(&["box"]), 1),
        AddItemResult::CannotAddOrRemoveContainer { path: Vec::new() }
    );
    assert_eq!(
        item.add_item(path(&["rope"]), -4),
        AddItemResult::InsufficientInventory { path: Vec::new(), requested: -4, available: 3 }
    );
}

#[test]
fn the_empty_path_is_invalid_at_every_node() {
    let amounts: Vec<isize> = vec![0, 1, -1, 5, -10, isize::MAX, isize::MIN];
    for amount in amounts {
        let mut empty = InventoryItem::Container { items: Vec::new() };
        assert_eq!(empty.add_item(Vec::new(), amount), AddItemResult::InvalidPath { path: Vec::new() });
        assert_eq!(empty, InventoryItem::Container { items: Vec::new() });

        let mut full = InventoryItem::Container {
            items: vec![("rope".to_string(), InventoryItem::Object { count: 5 })],
        };
        let before = full.clone();
        assert_eq!(full.add_item(Vec::new(), amount), AddItemResult::InvalidPath { path: Vec::new() });
        assert_eq!(full, before);

        let mut object = InventoryItem::Object { count: 5 };
        assert_eq!(
            object.add_item(Vec::new(), amount),
            AddItemResult::InvalidPath { path: Vec::new() }
        );
        assert_eq!(object, InventoryItem::Object { count: 5 });
    }
}

#[test]
fn an_object_takes_nothing_below_it() {
    let mut object = InventoryItem::Object { count: 5 };
    assert_eq!(
        object.add_item(path(&["strand"]), 2),
        AddItemResult::ObjectAtSubpath { path: path(&["strand"]) }
    );
    assert_eq!(
        object.add_container(path(&["box"])),
        AddContainerResult::ExpectedContainer { path: path(&["box"]) }
    );
    assert_eq!(
        object.add_container(Vec::new()),
        AddContainerResult::PathIsEmpty { path: Vec::new() }
    );
    assert_eq!(object, InventoryItem::Object { count: 5 });
}

#[test]
fn the_first_entry_of_a_name_decides() {
    let mut inventory = Inventory::new(vec![
        ("rope".to_string(), InventoryItem::Object { count: 5 }),
        ("rope".to_string(), InventoryItem::Object { count: 50 }),
    ]);
    assert_eq!(count_at(&inventory, &["rope"]), Some(5));
    assert_eq!(
        inventory.add_item(path(&["rope"]), 1),
        AddItemResult::Success { path: path(&["rope"]), requested: 1, available: 6 }
    );
    assert_eq!(
        inventory.items(),
        &vec![
            ("rope".to_string(), InventoryItem::Object { count: 6 }),
            ("rope".to_string(), InventoryItem::Object { count: 50 }),
        ]
    );
}

#[test]
fn get_follows_the_path() {
    let mut inventory = Inventory::default();
    inventory.add_container(path(&["pack"]));
    inventory.add_item(path(&["pack", "rope"]), 3);
    assert_eq!(inventory.get(&Vec::new()), None);
    assert_eq!(inventory.get(&path(&["sack"])), None);
    assert_eq!(inventory.get(&path(&["pack", "rope", "strand"])), None);
    assert_eq!(inventory.get(&path(&["pack", "rope"])), Some(&InventoryItem::Object { count: 3 }));
    assert_eq!(
        inventory.get(&path(&["pack"])),
        Some(&InventoryItem::Container {
            items: vec![("rope".to_string(), InventoryItem::Object { count: 3 })]
        })
    );
}

#[test]
fn counts_that_cannot_be_held_are_not_stored() {
    let mut inventory = Inventory::default();
    inventory.add_item(path(&["gold"]), isize::MAX);
    assert!(!inventory.can_add_item(&path(&["gold"]), 1));
    assert!(inventory.can_add_item(&path(&["gold"]), 0));
    assert!(inventory.can_add_item(&path(&["gold"]), -1));
    assert!(inventory.can_add_item(&path(&["silver"]), isize::MAX));
    assert!(inventory.can_add_item(&path(&["gold", "dust"]), isize::MAX));
    let before = inventory.clone();
    assert_eq!(inventory.checked_add_item(path(&["gold"]), 1), None);
    assert_eq!(inventory, before);
    assert_eq!(
        inventory.checked_add_item(path(&["gold"]), -1),
        Some(AddItemResult::Success {
            path: path(&["gold"]),
            requested: -1,
            available: isize::MAX - 1
        })
    );

    let mut inventory = Inventory::default();
    inventory.add_item(path(&["debt"]), isize::MIN);
    assert!(inventory.can_add_item(&path(&["debt"]), isize::MIN));
    assert_eq!(
        inventory.add_item(path(&["debt"]), isize::MIN),
        AddItemResult::InsufficientInventory {
            path: path(&["debt"]),
            requested: isize::MIN,
            available: isize::MIN
        }
    );
}

#[test]
fn with_path_keeps_the_outcome() {
    let told = AddItemResult::Success { path: path(&["a"]), requested: 2, available: 9 };
    assert_eq!(
        told.with_path(path(&["b", "c"])),
        AddItemResult::Success { path: path(&["b", "c"]), requested: 2, available: 9 }
    );
    let told =
        AddItemResult::InsufficientInventory { path: path(&["a"]), requested: -2, available: 1 };
    assert_eq!(
        told.with_path(Vec::new()),
        AddItemResult::InsufficientInventory { path: Vec::new(), requested: -2, available: 1 }
    );
    assert_eq!(
        AddItemResult::NoSuchItem { path: path(&["a"]) }.with_path(path(&["b"])),
        AddItemResult::NoSuchItem { path: path(&["b"]) }
    );
    assert_eq!(
        AddItemResult::InvalidPath { path: path(&["a"]) }.with_path(path(&["b"])),
        AddItemResult::InvalidPath { path: path(&["b"]) }
    );
    assert_eq!(
        AddContainerResult::NoSuchParent { path: path(&["a"]) }.with_path(path(&["b"])),
        AddContainerResult::NoSuchParent { path: path(&["b"]) }
    );
    assert_eq!(
        AddContainerResult::ExpectedContainer { path: path(&["a"]) }.clone(),
        AddContainerResult::ExpectedContainer { path: path(&["a"]) }
    );
}

#[test]
fn a_copy_of_an_inventory_is_equal_to_it() {
    let mut inventory = Inventory::default();
    inventory.add_container(path(&["pack"]));
    inventory.add_item(path(&["pack", "rope"]), 3);
    inventory.add_item(path(&["torch"]), 2);
    let copy = inventory.clone();
    assert_eq!(copy, inventory);
    inventory.add_item(path(&["torch"]), 1);
    assert_eq!(count_at(&copy, &["torch"]), Some(2));
    assert_eq!(count_at(&inventory, &["torch"]), Some(3));
}

#[test]
fn an_item_is_searched_from_itself() {
    let item = InventoryItem::Container {
        items: vec![
            ("rope".to_string(), InventoryItem::Object { count: isize::MAX }),
            ("box".to_string(), InventoryItem::Container { items: Vec::new() }),
        ],
    };
    assert_eq!(item.get(&Vec::new()), Some(&item));
    assert_eq!(item.get(&path(&["rope"])), Some(&InventoryItem::Object { count: isize::MAX }));
    assert_eq!(item.get(&path(&["box", "rope"])), None);
    assert_eq!(item.get(&path(&["rope", "strand"])), None);
    assert!(!item.can_add_item(&path(&["rope"]), 1));
    assert!(item.can_add_item(&path(&["rope"]), -1));
    assert!(item.can_add_item(&path(&["box", "rope"]), isize::MAX));
    assert!(item.can_add_item(&Vec::new(), isize::MAX));
    let object = InventoryItem::Object { count: 3 };
    assert_eq!(object.get(&Vec::new()), Some(&object));
    assert_eq!(object.get(&path(&["rope"])), None);
    assert!(object.can_add_item(&Vec::new(), isize::MAX));
    assert!(object.can_add_item(&path(&["rope"]), isize::MAX));
}
