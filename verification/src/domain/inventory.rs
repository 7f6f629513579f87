//! The inventory: a tree of named containers with countable objects as its
//! leaves, changed by path.

use crate::domain::named::{is_first_named, is_unnamed, position};
use crate::domain::path::{clone_path, path_view, tail, PathView};
use vstd::prelude::*;

verus! {

/// A node of the inventory. The entries of a container are kept in the order
/// in which they were added; where a name occurs twice among them, the first
/// entry is the one that the name stands for.
#[derive(Debug, PartialEq, Eq)]
pub enum InventoryItem {
    Object { count: isize },
    Container { items: Vec<(String, InventoryItem)> },
}

/// What an inventory node stands for: a count, or a map from names to nodes.
pub ghost enum ItemView {
    Object { count: int },
    Container { items: Map<Seq<char>, ItemView> },
}

/// The map that a list of named entries stands for. The first entry of a name
/// decides.
pub open spec fn entries_view(entries: Seq<(String, InventoryItem)>) -> Map<Seq<char>, ItemView>
    decreases entries,
{
    if entries.len() == 0 {
        Map::empty()
    } else {
        entries_view(entries.drop_first()).insert(entries[0].0@, entries[0].1@)
    }
}

impl View for InventoryItem {
    type V = ItemView;

    open spec fn view(&self) -> ItemView
        decreases self,
    {
        match self {
            InventoryItem::Object { count } => ItemView::Object { count: *count as int },
            InventoryItem::Container { items } => ItemView::Container {
                items: entries_view(items@),
            },
        }
    }
}

/// No name occurs twice among the entries.
pub open spec fn distinct_names(entries: Seq<(String, InventoryItem)>) -> bool {
    forall|i: int, j: int|
        0 <= i < j < entries.len() ==> (#[trigger] entries[i]).0@ != (#[trigger] entries[j]).0@
}

/// No name occurs twice among the entries, nor in any container below them.
pub open spec fn entries_wf(entries: Seq<(String, InventoryItem)>) -> bool
    decreases entries,
{
    &&& distinct_names(entries)
    &&& forall|i: int| 0 <= i < entries.len() ==> (#[trigger] entries[i]).1.wf()
}

impl InventoryItem {
    /// Names are unique within every container at or below this node.
    pub open spec fn wf(self) -> bool
        decreases self,
    {
        match self {
            InventoryItem::Object { .. } => true,
            InventoryItem::Container { items } => entries_wf(items@),
        }
    }
}

/// A name that no entry has is not in the map.
pub proof fn lemma_unnamed_is_absent(entries: Seq<(String, InventoryItem)>, name: Seq<char>)
    requires
        is_unnamed(entries, name),
    ensures
        !entries_view(entries).contains_key(name),
    decreases entries.len(),
{
    reveal_with_fuel(entries_view, 2);
    if entries.len() > 0 {
        let rest = entries.drop_first();
        assert(entries[0].0@ != name);
        assert forall|j: int| 0 <= j < rest.len() implies (#[trigger] rest[j]).0@ != name by {
            assert(rest[j] == entries[j + 1]);
        }
        lemma_unnamed_is_absent(rest, name);
    }
}

/// The map holds under a name what the first entry of that name holds.
pub proof fn lemma_first_named_is_value(
    entries: Seq<(String, InventoryItem)>,
    name: Seq<char>,
    index: int,
)
    requires
        is_first_named(entries, name, index),
    ensures
        entries_view(entries).contains_key(name),
        entries_view(entries)[name] == entries[index].1@,
    decreases entries.len(),
{
    reveal_with_fuel(entries_view, 2);
    if index > 0 {
        let rest = entries.drop_first();
        assert(entries[0].0@ != name);
        assert(rest[index - 1] == entries[index]);
        assert forall|j: int| 0 <= j < index - 1 implies (#[trigger] rest[j]).0@ != name by {
            assert(rest[j] == entries[j + 1]);
        }
        lemma_first_named_is_value(rest, name, index - 1);
    }
}

/// Replacing what the first entry of a name holds replaces what the map holds
/// under that name, and nothing else.
pub proof fn lemma_replace_first_named(
    entries: Seq<(String, InventoryItem)>,
    name: Seq<char>,
    index: int,
    entry: (String, InventoryItem),
)
    requires
        is_first_named(entries, name, index),
        entry.0@ == name,
    ensures
        entries_view(entries.update(index, entry)) == entries_view(entries).insert(name, entry.1@),
    decreases entries.len(),
{
    reveal_with_fuel(entries_view, 2);
    let updated = entries.update(index, entry);
    if index == 0 {
        assert(updated.drop_first() == entries.drop_first());
        assert(entries_view(updated) == entries_view(entries).insert(name, entry.1@));
    } else {
        let rest = entries.drop_first();
        assert(entries[0].0@ != name);
        assert(rest[index - 1] == entries[index]);
        assert forall|j: int| 0 <= j < index - 1 implies (#[trigger] rest[j]).0@ != name by {
            assert(rest[j] == entries[j + 1]);
        }
        lemma_replace_first_named(rest, name, index - 1, entry);
        assert(updated.drop_first() == rest.update(index - 1, entry));
        assert(updated[0] == entries[0]);
        assert(entries_view(updated) == entries_view(entries).insert(name, entry.1@));
    }
}

/// Appending an entry under a name that no entry has adds it to the map.
pub proof fn lemma_push_unnamed(
    entries: Seq<(String, InventoryItem)>,
    entry: (String, InventoryItem),
)
    requires
        is_unnamed(entries, entry.0@),
    ensures
        entries_view(entries.push(entry)) == entries_view(entries).insert(entry.0@, entry.1@),
    decreases entries.len(),
{
    reveal_with_fuel(entries_view, 2);
    let pushed = entries.push(entry);
    if entries.len() == 0 {
        assert(pushed.drop_first() == entries);
        assert(entries_view(pushed) == entries_view(entries).insert(entry.0@, entry.1@));
    } else {
        let rest = entries.drop_first();
        assert(entries[0].0@ != entry.0@);
        assert forall|j: int| 0 <= j < rest.len() implies (#[trigger] rest[j]).0@ != entry.0@ by {
            assert(rest[j] == entries[j + 1]);
        }
        lemma_push_unnamed(rest, entry);
        assert(pushed.drop_first() == rest.push(entry));
        assert(pushed[0] == entries[0]);
        assert(entries_view(pushed) == entries_view(entries).insert(entry.0@, entry.1@));
    }
}

/// How an attempt to add to (or, with a negative amount, take from) the
/// inventory ended. Each outcome repeats the path that it is about.
#[derive(Debug, PartialEq, Eq)]
pub enum AddItemResult {
    Success { path: Vec<String>, requested: isize, available: isize },
    InvalidPath { path: Vec<String> },
    NoSuchItem { path: Vec<String> },
    CannotAddOrRemoveContainer { path: Vec<String> },
    ContainerDoesNotExistFor { path: Vec<String> },
    InsufficientInventory { path: Vec<String>, requested: isize, available: isize },
    ObjectAtSubpath { path: Vec<String> },
}

/// What an `AddItemResult` stands for.
pub ghost enum AddItemResultView {
    Success { path: PathView, requested: int, available: int },
    InvalidPath { path: PathView },
    NoSuchItem { path: PathView },
    CannotAddOrRemoveContainer { path: PathView },
    ContainerDoesNotExistFor { path: PathView },
    InsufficientInventory { path: PathView, requested: int, available: int },
    ObjectAtSubpath { path: PathView },
}

impl AddItemResultView {
    /// The same outcome, told of another path.
    pub open spec fn with_path(self, path: PathView) -> AddItemResultView {
        match self {
            AddItemResultView::Success { requested, available, .. } => AddItemResultView::Success {
                path,
                requested,
                available,
            },
            AddItemResultView::InvalidPath { .. } => AddItemResultView::InvalidPath { path },
            AddItemResultView::NoSuchItem { .. } => AddItemResultView::NoSuchItem { path },
            AddItemResultView::CannotAddOrRemoveContainer {
                ..
            } => AddItemResultView::CannotAddOrRemoveContainer { path },
            AddItemResultView::ContainerDoesNotExistFor {
                ..
            } => AddItemResultView::ContainerDoesNotExistFor { path },
            AddItemResultView::InsufficientInventory {
                requested,
                available,
                ..
            } => AddItemResultView::InsufficientInventory { path, requested, available },
            AddItemResultView::ObjectAtSubpath { .. } => AddItemResultView::ObjectAtSubpath { path },
        }
    }

    /// The path that the outcome is told of.
    pub open spec fn path(self) -> PathView {
        match self {
            AddItemResultView::Success { path, .. } => path,
            AddItemResultView::InvalidPath { path } => path,
            AddItemResultView::NoSuchItem { path } => path,
            AddItemResultView::CannotAddOrRemoveContainer { path } => path,
            AddItemResultView::ContainerDoesNotExistFor { path } => path,
            AddItemResultView::InsufficientInventory { path, .. } => path,
            AddItemResultView::ObjectAtSubpath { path } => path,
        }
    }
}

impl View for AddItemResult {
    type V = AddItemResultView;

    open spec fn view(&self) -> AddItemResultView {
        match self {
            AddItemResult::Success { path, requested, available } => AddItemResultView::Success {
                path: path_view(path@),
                requested: *requested as int,
                available: *available as int,
            },
            AddItemResult::InvalidPath { path } => AddItemResultView::InvalidPath {
                path: path_view(path@),
            },
            AddItemResult::NoSuchItem { path } => AddItemResultView::NoSuchItem {
                path: path_view(path@),
            },
            AddItemResult::CannotAddOrRemoveContainer {
                path,
            } => AddItemResultView::CannotAddOrRemoveContainer { path: path_view(path@) },
            AddItemResult::ContainerDoesNotExistFor {
                path,
            } => AddItemResultView::ContainerDoesNotExistFor { path: path_view(path@) },
            AddItemResult::InsufficientInventory {
                path,
                requested,
                available,
            } => AddItemResultView::InsufficientInventory {
                path: path_view(path@),
                requested: *requested as int,
                available: *available as int,
            },
            AddItemResult::ObjectAtSubpath { path } => AddItemResultView::ObjectAtSubpath {
                path: path_view(path@),
            },
        }
    }
}

impl Clone for AddItemResult {
    fn clone(&self) -> (copy: AddItemResult)
        ensures
            copy@ == self@,
    {
        match self {
            AddItemResult::Success { path, .. } => self.with_path(clone_path(path)),
            AddItemResult::InvalidPath { path } => self.with_path(clone_path(path)),
            AddItemResult::NoSuchItem { path } => self.with_path(clone_path(path)),
            AddItemResult::CannotAddOrRemoveContainer { path } => self.with_path(clone_path(path)),
            AddItemResult::ContainerDoesNotExistFor { path } => self.with_path(clone_path(path)),
            AddItemResult::InsufficientInventory { path, .. } => self.with_path(clone_path(path)),
            AddItemResult::ObjectAtSubpath { path } => self.with_path(clone_path(path)),
        }
    }
}

impl AddItemResult {
    /// The same outcome, told of another path.
    pub fn with_path(&self, path: Vec<String>) -> (result: AddItemResult)
        ensures
            result@ == self@.with_path(path_view(path@)),
    {
        match self {
            AddItemResult::Success { requested, available, .. } => AddItemResult::Success {
                path,
                requested: *requested,
                available: *available,
            },
            AddItemResult::InvalidPath { .. } => AddItemResult::InvalidPath { path },
            AddItemResult::CannotAddOrRemoveContainer {
                ..
            } => AddItemResult::CannotAddOrRemoveContainer { path },
            AddItemResult::ContainerDoesNotExistFor {
                ..
            } => AddItemResult::ContainerDoesNotExistFor { path },
            AddItemResult::NoSuchItem { .. } => AddItemResult::NoSuchItem { path },
            AddItemResult::ObjectAtSubpath { .. } => AddItemResult::ObjectAtSubpath { path },
            AddItemResult::InsufficientInventory {
                requested,
                available,
                ..
            } => AddItemResult::InsufficientInventory {
                path,
                requested: *requested,
                available: *available,
            },
        }
    }
}

/// How an attempt to create a container ended.
#[derive(Debug, PartialEq, Eq)]
pub enum AddContainerResult {
    ExpectedContainer { path: Vec<String> },
    Success { path: Vec<String> },
    Collision { path: Vec<String> },
    NoSuchParent { path: Vec<String> },
    PathIsEmpty { path: Vec<String> },
}

/// What an `AddContainerResult` stands for.
pub ghost enum AddContainerResultView {
    ExpectedContainer { path: PathView },
    Success { path: PathView },
    Collision { path: PathView },
    NoSuchParent { path: PathView },
    PathIsEmpty { path: PathView },
}

impl AddContainerResultView {
    /// The same outcome, told of another path.
    pub open spec fn with_path(self, path: PathView) -> AddContainerResultView {
        match self {
            AddContainerResultView::ExpectedContainer {
                ..
            } => AddContainerResultView::ExpectedContainer { path },
            AddContainerResultView::Success { .. } => AddContainerResultView::Success { path },
            AddContainerResultView::Collision { .. } => AddContainerResultView::Collision { path },
            AddContainerResultView::NoSuchParent { .. } => AddContainerResultView::NoSuchParent {
                path,
            },
            AddContainerResultView::PathIsEmpty { .. } => AddContainerResultView::PathIsEmpty {
                path,
            },
        }
    }
}

impl View for AddContainerResult {
    type V = AddContainerResultView;

    open spec fn view(&self) -> AddContainerResultView {
        match self {
            AddContainerResult::ExpectedContainer {
                path,
            } => AddContainerResultView::ExpectedContainer { path: path_view(path@) },
            AddContainerResult::Success { path } => AddContainerResultView::Success {
                path: path_view(path@),
            },
            AddContainerResult::Collision { path } => AddContainerResultView::Collision {
                path: path_view(path@),
            },
            AddContainerResult::NoSuchParent { path } => AddContainerResultView::NoSuchParent {
                path: path_view(path@),
            },
            AddContainerResult::PathIsEmpty { path } => AddContainerResultView::PathIsEmpty {
                path: path_view(path@),
            },
        }
    }
}

impl Clone for AddContainerResult {
    fn clone(&self) -> (copy: AddContainerResult)
        ensures
            copy@ == self@,
    {
        match self {
            AddContainerResult::ExpectedContainer { path } => self.with_path(clone_path(path)),
            AddContainerResult::Success { path } => self.with_path(clone_path(path)),
            AddContainerResult::Collision { path } => self.with_path(clone_path(path)),
            AddContainerResult::NoSuchParent { path } => self.with_path(clone_path(path)),
            AddContainerResult::PathIsEmpty { path } => self.with_path(clone_path(path)),
        }
    }
}

impl AddContainerResult {
    /// The same outcome, told of another path.
    pub fn with_path(&self, path: Vec<String>) -> (result: AddContainerResult)
        ensures
            result@ == self@.with_path(path_view(path@)),
    {
        match self {
            AddContainerResult::ExpectedContainer { .. } => AddContainerResult::ExpectedContainer {
                path,
            },
            AddContainerResult::Success { .. } => AddContainerResult::Success { path },
            AddContainerResult::Collision { .. } => AddContainerResult::Collision { path },
            AddContainerResult::NoSuchParent { .. } => AddContainerResult::NoSuchParent { path },
            AddContainerResult::PathIsEmpty { .. } => AddContainerResult::PathIsEmpty { path },
        }
    }
}

/// How an attempt to take an item by name ended.
#[derive(Debug, PartialEq, Eq)]
pub enum RemoveItemResult {
    InsufficientInventory { name: String, requested: isize, available: isize },
    ContainerNotRemoved { name: String },
    NoSuchItem { name: String, requested: isize },
    Success { name: String, requested: isize, available: isize },
}

impl Clone for RemoveItemResult {
    fn clone(&self) -> (copy: RemoveItemResult)
        ensures
            copy == *self,
    {
        match self {
            RemoveItemResult::InsufficientInventory {
                name,
                requested,
                available,
            } => RemoveItemResult::InsufficientInventory {
                name: name.clone(),
                requested: *requested,
                available: *available,
            },
            RemoveItemResult::ContainerNotRemoved { name } => RemoveItemResult::ContainerNotRemoved {
                name: name.clone(),
            },
            RemoveItemResult::NoSuchItem { name, requested } => RemoveItemResult::NoSuchItem {
                name: name.clone(),
                requested: *requested,
            },
            RemoveItemResult::Success { name, requested, available } => RemoveItemResult::Success {
                name: name.clone(),
                requested: *requested,
                available: *available,
            },
        }
    }
}

/// Applies an amount to a count: a count never falls below zero.
pub open spec fn apply_delta(count: int, path: PathView, delta: int) -> (int, AddItemResultView) {
    if count + delta < 0 {
        (count, AddItemResultView::InsufficientInventory { path, requested: delta, available: count })
    } else {
        (
            count + delta,
            AddItemResultView::Success { path, requested: delta, available: count + delta },
        )
    }
}

impl ItemView {
    /// Applies `delta` to this node as the entry that the last segment of a
    /// path names: an object's count takes it, a container is refused. The
    /// outcome is told of `rest`, the path below the entry.
    pub open spec fn change_count(self, rest: PathView, delta: int) -> (ItemView, AddItemResultView) {
        match self {
            ItemView::Object { count } => {
                let (count, result) = apply_delta(count, rest, delta);
                (ItemView::Object { count }, result)
            },
            ItemView::Container { .. } => (
                self,
                AddItemResultView::CannotAddOrRemoveContainer { path: rest },
            ),
        }
    }

    /// Adds `delta` to the object that `path` leads to from this node, and
    /// gives the node afterwards with the outcome.
    ///
    /// The empty path is invalid at every node. Otherwise the node has to be
    /// a container, and the first segment names one of its entries.
    pub open spec fn add_item(self, path: PathView, delta: int) -> (ItemView, AddItemResultView)
        decreases path.len(), 1int,
    {
        if path.len() == 0 {
            (self, AddItemResultView::InvalidPath { path })
        } else {
            match self {
                ItemView::Object { .. } => (self, AddItemResultView::ObjectAtSubpath { path }),
                ItemView::Container { items } => {
                    let (items, result) = entries_add_item(items, path, delta);
                    (ItemView::Container { items }, result)
                },
            }
        }
    }

    /// Creates an empty container where `path` leads to from this node. The
    /// empty path names no place at any node; otherwise the node has to be a
    /// container.
    pub open spec fn add_container(self, path: PathView) -> (ItemView, AddContainerResultView)
        decreases path.len(), 1int,
    {
        if path.len() == 0 {
            (self, AddContainerResultView::PathIsEmpty { path })
        } else {
            match self {
                ItemView::Object { .. } => (self, AddContainerResultView::ExpectedContainer { path }),
                ItemView::Container { items } => {
                    let (items, result) = entries_add_container(items, path);
                    (ItemView::Container { items }, result)
                },
            }
        }
    }
}

/// Adds `delta` to the object that `path` leads to from a container's
/// entries.
///
/// The last segment decides: an entry of that name takes the amount if it is
/// an object and is refused if it is a container; where there is none, an
/// object holding `delta` is created. An entry that an earlier segment names
/// is asked with the rest of the path; containers on the way are never
/// created.
///
/// What an existing entry decides is told of the path below that entry, and
/// what the container decides of the path from the container on.
pub open spec fn entries_add_item(items: Map<Seq<char>, ItemView>, path: PathView, delta: int) -> (
    Map<Seq<char>, ItemView>,
    AddItemResultView,
)
    decreases path.len(), 0int,
{
    if path.len() == 0 {
        (items, AddItemResultView::InvalidPath { path })
    } else if items.contains_key(path[0]) {
        let (child, result) = if path.len() == 1 {
            items[path[0]].change_count(path.skip(1), delta)
        } else {
            items[path[0]].add_item(path.skip(1), delta)
        };
        (items.insert(path[0], child), result)
    } else if path.len() == 1 {
        (
            items.insert(path[0], ItemView::Object { count: delta }),
            AddItemResultView::Success { path, requested: delta, available: delta },
        )
    } else {
        (items, AddItemResultView::ContainerDoesNotExistFor { path })
    }
}

/// Creates an empty container where `path` leads to from a container's
/// entries. The parents must exist, and the last name must be free.
pub open spec fn entries_add_container(items: Map<Seq<char>, ItemView>, path: PathView) -> (
    Map<Seq<char>, ItemView>,
    AddContainerResultView,
)
    decreases path.len(), 0int,
{
    if path.len() == 0 {
        (items, AddContainerResultView::PathIsEmpty { path })
    } else if path.len() == 1 {
        if items.contains_key(path[0]) {
            (items, AddContainerResultView::Collision { path })
        } else {
            (
                items.insert(path[0], ItemView::Container { items: Map::empty() }),
                AddContainerResultView::Success { path },
            )
        }
    } else if items.contains_key(path[0]) {
        let (child, result) = items[path[0]].add_container(path.skip(1));
        (items.insert(path[0], child), result)
    } else {
        (items, AddContainerResultView::NoSuchParent { path })
    }
}

/// Whether the count that an addition leaves behind can be held in an
/// `isize`. Only a successful addition stores a count.
pub open spec fn stays_in_range(result: AddItemResultView) -> bool {
    result matches AddItemResultView::Success { available, .. } ==> available <= isize::MAX
}

/// Adds to the object that `path` leads to from a list of entries.
fn add_item_to_entries(
    entries: &mut Vec<(String, InventoryItem)>,
    path: Vec<String>,
    count: isize,
) -> (result: AddItemResult)
    requires
        stays_in_range(entries_add_item(entries_view(old(entries)@), path_view(path@), count as int).1),
    ensures
        (entries_view(final(entries)@), result@) == entries_add_item(
            entries_view(old(entries)@),
            path_view(path@),
            count as int,
        ),
        path@.len() == 0 ==> *final(entries) == *old(entries),
        entries_wf(old(entries)@) ==> entries_wf(final(entries)@),
    decreases path.len(), 0int,
{
    if path.len() == 0 {
        return AddItemResult::InvalidPath { path };
    }
    let index = position(entries, &path[0]);
    if index < entries.len() {
        proof {
            lemma_first_named_is_value(entries@, path@[0]@, index as int);
        }
        let child_path = tail(&path);
        let result = if path.len() == 1 {
            entries[index].1.change_count(child_path, count)
        } else {
            entries[index].1.add_item(child_path, count)
        };
        proof {
            lemma_replace_first_named(old(entries)@, path@[0]@, index as int, entries@[index as int]);
        }
        result
    } else if path.len() == 1 {
        proof {
            lemma_unnamed_is_absent(entries@, path@[0]@);
        }
        let name = path[0].clone();
        entries.push((name, InventoryItem::Object { count }));
        proof {
            lemma_push_unnamed(old(entries)@, (name, InventoryItem::Object { count }));
        }
        AddItemResult::Success { path, requested: count, available: count }
    } else {
        proof {
            lemma_unnamed_is_absent(entries@, path@[0]@);
        }
        AddItemResult::ContainerDoesNotExistFor { path }
    }
}

impl InventoryItem {
    /// Applies `count` to this node as the entry that the last segment of a
    /// path names.
    fn change_count(&mut self, rest: Vec<String>, count: isize) -> (result: AddItemResult)
        requires
            stays_in_range(old(self)@.change_count(path_view(rest@), count as int).1),
        ensures
            (final(self)@, result@) == old(self)@.change_count(path_view(rest@), count as int),
            old(self).wf() ==> final(self).wf(),
    {
        match self {
            InventoryItem::Object { count: held } => {
                let sum: i128 = *held as i128 + count as i128;
                if sum < 0 {
                    AddItemResult::InsufficientInventory {
                        path: rest,
                        requested: count,
                        available: *held,
                    }
                } else {
                    *held = sum as isize;
                    AddItemResult::Success { path: rest, requested: count, available: *held }
                }
            },
            InventoryItem::Container { .. } => AddItemResult::CannotAddOrRemoveContainer {
                path: rest,
            },
        }
    }

    /// Adds `count` to the object that `path` leads to from this node; a
    /// negative `count` takes away. The empty path is invalid, whatever the
    /// node is. Nothing changes unless the outcome is `Success`.
    pub fn add_item(&mut self, path: Vec<String>, count: isize) -> (result: AddItemResult)
        requires
            stays_in_range(old(self)@.add_item(path_view(path@), count as int).1),
        ensures
            (final(self)@, result@) == old(self)@.add_item(path_view(path@), count as int),
            path@.len() == 0 ==> result@ == (AddItemResultView::InvalidPath {
                path: Seq::<Seq<char>>::empty(),
            }) && *final(self) == *old(self),
            old(self).wf() ==> final(self).wf(),
        decreases path.len(), 1int,
    {
        if path.len() == 0 {
            assert(path_view(path@) == Seq::<Seq<char>>::empty());
            return AddItemResult::InvalidPath { path };
        }
        match self {
            InventoryItem::Object { .. } => AddItemResult::ObjectAtSubpath { path },
            InventoryItem::Container { items } => add_item_to_entries(items, path, count),
        }
    }
}

/// Creates a container where `path` leads to from a list of entries.
fn add_container_to_entries(entries: &mut Vec<(String, InventoryItem)>, path: Vec<String>) -> (result:
    AddContainerResult)
    ensures
        (entries_view(final(entries)@), result@) == entries_add_container(
            entries_view(old(entries)@),
            path_view(path@),
        ),
        entries_wf(old(entries)@) ==> entries_wf(final(entries)@),
    decreases path.len(), 0int,
{
    if path.len() == 0 {
        return AddContainerResult::PathIsEmpty { path };
    }
    let index = position(entries, &path[0]);
    proof {
        if index < entries.len() {
            lemma_first_named_is_value(entries@, path@[0]@, index as int);
        } else {
            lemma_unnamed_is_absent(entries@, path@[0]@);
        }
    }
    if path.len() == 1 {
        if index < entries.len() {
            AddContainerResult::Collision { path }
        } else {
            let name = path[0].clone();
            let container = InventoryItem::Container { items: Vec::new() };
            assert(container@ == (ItemView::Container { items: Map::empty() })) by {
                reveal_with_fuel(entries_view, 2);
            }
            assert(container.wf());
            entries.push((name, container));
            proof {
                lemma_push_unnamed(old(entries)@, entries@[index as int]);
            }
            AddContainerResult::Success { path }
        }
    } else if index < entries.len() {
        let child_path = tail(&path);
        let result = entries[index].1.add_container(child_path);
        proof {
            lemma_replace_first_named(old(entries)@, path@[0]@, index as int, entries@[index as int]);
        }
        result
    } else {
        AddContainerResult::NoSuchParent { path }
    }
}

impl InventoryItem {
    /// Creates an empty container where `path` leads to from this node. The
    /// node and every parent on the way must be containers, and the last
    /// name must be free; the empty path names no place, whatever the node
    /// is. Nothing changes unless the outcome is `Success`.
    pub fn add_container(&mut self, path: Vec<String>) -> (result: AddContainerResult)
        ensures
            (final(self)@, result@) == old(self)@.add_container(path_view(path@)),
            path@.len() == 0 ==> result@ == (AddContainerResultView::PathIsEmpty {
                path: Seq::<Seq<char>>::empty(),
            }) && *final(self) == *old(self),
            old(self).wf() ==> final(self).wf(),
        decreases path.len(), 1int,
    {
        if path.len() == 0 {
            assert(path_view(path@) == Seq::<Seq<char>>::empty());
            return AddContainerResult::PathIsEmpty { path };
        }
        match self {
            InventoryItem::Container { items } => add_container_to_entries(items, path),
            InventoryItem::Object { .. } => AddContainerResult::ExpectedContainer { path },
        }
    }
}

/// The root of the inventory: a container without a name.
#[derive(Debug, PartialEq, Eq)]
pub struct Inventory {
    items: Vec<(String, InventoryItem)>,
}

impl View for Inventory {
    type V = Map<Seq<char>, ItemView>;

    open spec fn view(&self) -> Map<Seq<char>, ItemView> {
        entries_view(self.entries())
    }
}

impl Default for Inventory {
    fn default() -> (inventory: Inventory)
        ensures
            inventory.entries() == Seq::<(String, InventoryItem)>::empty(),
            inventory@ == Map::<Seq<char>, ItemView>::empty(),
            inventory.wf(),
    {
        Inventory { items: Vec::new() }
    }
}

impl Inventory {
    /// The entries of the root, in the order in which they are kept.
    pub closed spec fn entries(self) -> Seq<(String, InventoryItem)> {
        self.items@
    }

    /// Names are unique within the root and within every container below it.
    pub open spec fn wf(self) -> bool {
        entries_wf(self.entries())
    }

    pub fn new(items: Vec<(String, InventoryItem)>) -> (inventory: Inventory)
        ensures
            inventory.entries() == items@,
    {
        Inventory { items }
    }

    pub fn items(&self) -> (items: &Vec<(String, InventoryItem)>)
        ensures
            items@ == self.entries(),
    {
        &self.items
    }

    /// Adds `count` to the object that `path` leads to, creating the object
    /// where only it is missing; a negative `count` takes away, and never
    /// more than there is. Nothing changes unless the outcome is `Success`.
    /// An object that is used up stays in the inventory with a count of
    /// zero.
    pub fn add_item(&mut self, path: Vec<String>, count: isize) -> (result: AddItemResult)
        requires
            stays_in_range(entries_add_item(old(self)@, path_view(path@), count as int).1),
        ensures
            final(self)@ == entries_add_item(old(self)@, path_view(path@), count as int).0,
            result@ == entries_add_item(old(self)@, path_view(path@), count as int).1.with_path(
                path_view(path@),
            ),
            path@.len() == 0 ==> result@ == (AddItemResultView::InvalidPath {
                path: Seq::<Seq<char>>::empty(),
            }) && *final(self) == *old(self),
            old(self).wf() ==> final(self).wf(),
    {
        let told = clone_path(&path);
        assert(path@.len() == 0 ==> path_view(path@) == Seq::<Seq<char>>::empty());
        add_item_to_entries(&mut self.items, path, count).with_path(told)
    }

    /// Creates an empty container where `path` leads to. Its parents must
    /// exist already, and its own name must be free. Nothing changes unless
    /// the outcome is `Success`.
    pub fn add_container(&mut self, path: Vec<String>) -> (result: AddContainerResult)
        ensures
            final(self)@ == entries_add_container(old(self)@, path_view(path@)).0,
            result@ == entries_add_container(old(self)@, path_view(path@)).1.with_path(
                path_view(path@),
            ),
            path@.len() == 0 ==> result@ == (AddContainerResultView::PathIsEmpty {
                path: Seq::<Seq<char>>::empty(),
            }) && final(self)@ == old(self)@,
            old(self).wf() ==> final(self).wf(),
    {
        let told = clone_path(&path);
        assert(path@.len() == 0 ==> path_view(path@) == Seq::<Seq<char>>::empty());
        add_container_to_entries(&mut self.items, path).with_path(told)
    }
}


impl ItemView {
    /// The node that `path` leads to from this node, if there is one: the
    /// node itself for the empty path.
    pub open spec fn get(self, path: PathView) -> Option<ItemView>
        decreases path.len(), 1int,
    {
        if path.len() == 0 {
            Some(self)
        } else {
            match self {
                ItemView::Object { .. } => None,
                ItemView::Container { items } => entries_get(items, path),
            }
        }
    }
}

/// The node that `path` leads to from a container's entries, if there is
/// one. The empty path leads nowhere.
pub open spec fn entries_get(items: Map<Seq<char>, ItemView>, path: PathView) -> Option<ItemView>
    decreases path.len(), 0int,
{
    if path.len() == 0 || !items.contains_key(path[0]) {
        None
    } else {
        items[path[0]].get(path.skip(1))
    }
}

/// The node that the rest of `path` from `depth` on leads to.
fn get_in_entries<'a>(
    entries: &'a Vec<(String, InventoryItem)>,
    path: &Vec<String>,
    depth: usize,
) -> (found: Option<&'a InventoryItem>)
    requires
        depth < path.len(),
    ensures
        found matches Some(item) ==> entries_get(
            entries_view(entries@),
            path_view(path@).skip(depth as int),
        ) == Some(item@),
        found is None ==> entries_get(entries_view(entries@), path_view(path@).skip(depth as int))
            is None,
    decreases path.len() - depth,
{
    let ghost rest = path_view(path@).skip(depth as int);
    let index = position(entries, &path[depth]);
    proof {
        assert(rest[0] == path@[depth as int]@);
        if index < entries.len() {
            lemma_first_named_is_value(entries@, rest[0], index as int);
        } else {
            lemma_unnamed_is_absent(entries@, rest[0]);
        }
        assert(rest.skip(1) == path_view(path@).skip(depth + 1));
    }
    if index == entries.len() {
        None
    } else if depth + 1 == path.len() {
        Some(&entries[index].1)
    } else {
        match &entries[index].1 {
            InventoryItem::Object { .. } => None,
            InventoryItem::Container { items } => get_in_entries(items, path, depth + 1),
        }
    }
}

impl InventoryItem {
    /// The node that `path` leads to from this node, if there is one: the
    /// node itself for the empty path.
    pub fn get(&self, path: &Vec<String>) -> (found: Option<&InventoryItem>)
        ensures
            found matches Some(item) ==> self@.get(path_view(path@)) == Some(item@),
            found is None ==> self@.get(path_view(path@)) is None,
    {
        if path.len() == 0 {
            Some(self)
        } else {
            match self {
                InventoryItem::Object { .. } => None,
                InventoryItem::Container { items } => {
                    assert(path_view(path@).skip(0) == path_view(path@));
                    get_in_entries(items, path, 0)
                },
            }
        }
    }

    /// Whether `add_item` can be asked for this: whether the count that it
    /// would leave behind can be held.
    pub fn can_add_item(&self, path: &Vec<String>, count: isize) -> (fits: bool)
        ensures
            fits == stays_in_range(self@.add_item(path_view(path@), count as int).1),
    {
        if path.len() == 0 {
            return true;
        }
        proof {
            lemma_item_add_item_by_target(self@, path_view(path@), count as int);
        }
        match self.get(path) {
            Some(InventoryItem::Object { count: held }) => *held as i128 + count as i128
                <= isize::MAX as i128,
            _ => true,
        }
    }
}

impl Inventory {
    /// The node that `path` leads to, if there is one.
    pub fn get(&self, path: &Vec<String>) -> (found: Option<&InventoryItem>)
        ensures
            found matches Some(item) ==> entries_get(self@, path_view(path@)) == Some(item@),
            found is None ==> entries_get(self@, path_view(path@)) is None,
    {
        if path.len() == 0 {
            None
        } else {
            assert(path_view(path@).skip(0) == path_view(path@));
            get_in_entries(&self.items, path, 0)
        }
    }

    /// Whether `add_item` can be asked for this: whether the count that it
    /// would leave behind can be held.
    pub fn can_add_item(&self, path: &Vec<String>, count: isize) -> (fits: bool)
        ensures
            fits == stays_in_range(entries_add_item(self@, path_view(path@), count as int).1),
    {
        proof {
            lemma_entries_add_item_by_target(self@, path_view(path@), count as int);
        }
        match self.get(path) {
            Some(InventoryItem::Object { count: held }) => *held as i128 + count as i128
                <= isize::MAX as i128,
            _ => true,
        }
    }

    /// `add_item` where the count that it would leave behind can be held;
    /// otherwise nothing is done and nothing is returned.
    pub fn checked_add_item(&mut self, path: Vec<String>, count: isize) -> (result: Option<
        AddItemResult,
    >)
        ensures
            result is Some <==> stays_in_range(
                entries_add_item(old(self)@, path_view(path@), count as int).1,
            ),
            result matches Some(outcome) ==> {
                &&& final(self)@ == entries_add_item(old(self)@, path_view(path@), count as int).0
                &&& outcome@ == entries_add_item(
                    old(self)@,
                    path_view(path@),
                    count as int,
                ).1.with_path(path_view(path@))
            },
            result is None ==> *final(self) == *old(self),
            old(self).wf() ==> final(self).wf(),
    {
        if self.can_add_item(&path, count) {
            Some(self.add_item(path, count))
        } else {
            None
        }
    }
}

/// What `add_item` answers depends only on what the path leads to: an
/// object's count takes the amount, a container is refused, and where the
/// path leads to nothing a success can only be a creation.
pub proof fn lemma_item_add_item_by_target(item: ItemView, path: PathView, delta: int)
    requires
        path.len() > 0,
    ensures
        match item.get(path) {
            Some(ItemView::Object { count }) => item.add_item(path, delta).1.with_path(path)
                == apply_delta(count, path, delta).1,
            Some(ItemView::Container { .. }) => item.add_item(path, delta).1.with_path(path) == (
            AddItemResultView::CannotAddOrRemoveContainer { path }),
            None => item.add_item(path, delta).1 matches AddItemResultView::Success {
                requested,
                available,
                ..
            } ==> requested == delta && available == delta,
        },
    decreases path.len(), 1int,
{
    match item {
        ItemView::Object { .. } => {},
        ItemView::Container { items } => {
            lemma_entries_add_item_by_target(items, path, delta);
        },
    }
}

/// What `add_item` answers depends only on what the path leads to: an
/// object's count takes the amount, a container is refused, and where the
/// path leads to nothing a success can only be a creation.
pub proof fn lemma_entries_add_item_by_target(
    items: Map<Seq<char>, ItemView>,
    path: PathView,
    delta: int,
)
    ensures
        match entries_get(items, path) {
            Some(ItemView::Object { count }) => entries_add_item(items, path, delta).1.with_path(path)
                == apply_delta(count, path, delta).1,
            Some(ItemView::Container { .. }) => entries_add_item(items, path, delta).1.with_path(path)
                == (AddItemResultView::CannotAddOrRemoveContainer { path }),
            None => entries_add_item(items, path, delta).1 matches AddItemResultView::Success {
                requested,
                available,
                ..
            } ==> requested == delta && available == delta,
        },
    decreases path.len(), 0int,
{
    if path.len() > 1 && items.contains_key(path[0]) {
        lemma_item_add_item_by_target(items[path[0]], path.skip(1), delta);
    }
}


/// An addition that does not succeed leaves the node as it was.
pub proof fn lemma_item_add_item_failure_changes_nothing(item: ItemView, path: PathView, delta: int)
    requires
        !(item.add_item(path, delta).1 is Success),
    ensures
        item.add_item(path, delta).0 == item,
    decreases path.len(), 1int,
{
    if path.len() > 0 {
        match item {
            ItemView::Object { .. } => {},
            ItemView::Container { items } => {
                lemma_add_item_failure_changes_nothing(items, path, delta);
            },
        }
    }
}

/// An addition that does not succeed leaves the inventory as it was.
pub proof fn lemma_add_item_failure_changes_nothing(
    items: Map<Seq<char>, ItemView>,
    path: PathView,
    delta: int,
)
    requires
        !(entries_add_item(items, path, delta).1 is Success),
    ensures
        entries_add_item(items, path, delta).0 == items,
    decreases path.len(), 0int,
{
    if path.len() > 0 && items.contains_key(path[0]) {
        lemma_item_add_item_failure_changes_nothing(items[path[0]], path.skip(1), delta);
        assert(items.insert(path[0], items[path[0]]) == items);
    }
}

/// After a successful addition the path leads to an object that holds the
/// count that the outcome reports.
pub proof fn lemma_item_add_item_then_get(item: ItemView, path: PathView, delta: int)
    requires
        item.add_item(path, delta).1 is Success,
    ensures
        item.add_item(path, delta).0.get(path) == Some(
            ItemView::Object { count: item.add_item(path, delta).1->Success_available },
        ),
    decreases path.len(), 1int,
{
    if path.len() > 0 {
        match item {
            ItemView::Object { .. } => {},
            ItemView::Container { items } => {
                lemma_add_item_then_get(items, path, delta);
            },
        }
    }
}

/// After a successful addition the path leads to an object that holds the
/// count that the outcome reports.
pub proof fn lemma_add_item_then_get(items: Map<Seq<char>, ItemView>, path: PathView, delta: int)
    requires
        entries_add_item(items, path, delta).1 is Success,
    ensures
        entries_get(entries_add_item(items, path, delta).0, path) == Some(
            ItemView::Object { count: entries_add_item(items, path, delta).1->Success_available },
        ),
    decreases path.len(), 0int,
{
    if path.len() > 1 && items.contains_key(path[0]) {
        lemma_item_add_item_then_get(items[path[0]], path.skip(1), delta);
    }
}

/// A successful addition reports the amount that was asked for, and a count
/// that is not negative unless the object was created by it.
pub proof fn lemma_add_item_success_reports(items: Map<Seq<char>, ItemView>, path: PathView, delta: int)
    requires
        entries_add_item(items, path, delta).1 is Success,
    ensures
        entries_add_item(items, path, delta).1->Success_requested == delta,
        entries_get(items, path) matches Some(ItemView::Object { count }) && entries_add_item(
            items,
            path,
            delta,
        ).1->Success_available == count + delta && count + delta >= 0 || entries_get(items, path)
            is None && entries_add_item(items, path, delta).1->Success_available == delta,
{
    lemma_entries_add_item_by_target(items, path, delta);
}

/// `add_item` creates no container: where the path has a parent and the
/// parent is missing, the addition does not succeed.
pub proof fn lemma_add_item_needs_parent(items: Map<Seq<char>, ItemView>, path: PathView, delta: int)
    requires
        path.len() >= 2,
        !(entries_get(items, path.drop_last()) is Some),
    ensures
        !(entries_add_item(items, path, delta).1 is Success),
    decreases path.len(),
{
    if items.contains_key(path[0]) {
        assert(path.drop_last().skip(1) == path.skip(1).drop_last());
        assert(path.drop_last()[0] == path[0]);
        match items[path[0]] {
            ItemView::Object { .. } => {},
            ItemView::Container { items: inner } => {
                if path.len() >= 3 {
                    lemma_add_item_needs_parent(inner, path.skip(1), delta);
                } else {
                    assert(path.drop_last().skip(1).len() == 0);
                }
            },
        }
    }
}

/// What was added can be taken again: where an amount that is not negative
/// was added to a count that was not negative, or made a new object, taking
/// the same amount succeeds and leaves what was there before.
pub proof fn lemma_add_then_take(items: Map<Seq<char>, ItemView>, path: PathView, amount: int)
    requires
        amount >= 0,
        entries_add_item(items, path, amount).1 is Success,
        entries_get(items, path) matches Some(ItemView::Object { count }) ==> count >= 0,
    ensures
        ({
            let added = entries_add_item(items, path, amount);
            let taken = entries_add_item(added.0, path, -amount);
            taken.1.with_path(path) == (AddItemResultView::Success {
                path,
                requested: -amount,
                available: added.1->Success_available - amount,
            })
        }),
{
    let added = entries_add_item(items, path, amount);
    lemma_entries_add_item_by_target(items, path, amount);
    lemma_add_item_then_get(items, path, amount);
    lemma_entries_add_item_by_target(added.0, path, -amount);
}

/// An addition leaves alone what lies off its path: a path that parts from
/// the path of the addition at some place leads to the same as before.
pub proof fn lemma_item_add_item_leaves_other_paths(
    item: ItemView,
    path: PathView,
    delta: int,
    other: PathView,
    place: int,
)
    requires
        0 <= place < path.len(),
        place < other.len(),
        path[place] != other[place],
    ensures
        item.add_item(path, delta).0.get(other) == item.get(other),
    decreases path.len(), 1int,
{
    match item {
        ItemView::Object { .. } => {},
        ItemView::Container { items } => {
            lemma_add_item_leaves_other_paths(items, path, delta, other, place);
        },
    }
}

/// An addition leaves alone what lies off its path: a path that parts from
/// the path of the addition at some place leads to the same as before.
pub proof fn lemma_add_item_leaves_other_paths(
    items: Map<Seq<char>, ItemView>,
    path: PathView,
    delta: int,
    other: PathView,
    place: int,
)
    requires
        0 <= place < path.len(),
        place < other.len(),
        path[place] != other[place],
    ensures
        entries_get(entries_add_item(items, path, delta).0, other) == entries_get(items, other),
    decreases path.len(), 0int,
{
    if path[0] == other[0] && items.contains_key(path[0]) {
        assert(path.skip(1)[place - 1] == path[place]);
        assert(other.skip(1)[place - 1] == other[place]);
        lemma_item_add_item_leaves_other_paths(
            items[path[0]],
            path.skip(1),
            delta,
            other.skip(1),
            place - 1,
        );
    }
}

/// A new container leaves alone what lies off its path.
pub proof fn lemma_add_container_leaves_other_paths(
    items: Map<Seq<char>, ItemView>,
    path: PathView,
    other: PathView,
    place: int,
)
    requires
        0 <= place < path.len(),
        place < other.len(),
        path[place] != other[place],
    ensures
        entries_get(entries_add_container(items, path).0, other) == entries_get(items, other),
    decreases path.len(),
{
    if path[0] == other[0] && path.len() > 1 && items.contains_key(path[0]) {
        assert(path.skip(1)[place - 1] == path[place]);
        assert(other.skip(1)[place - 1] == other[place]);
        match items[path[0]] {
            ItemView::Object { .. } => {},
            ItemView::Container { items: inner } => {
                lemma_add_container_leaves_other_paths(inner, path.skip(1), other.skip(1), place - 1);
            },
        }
    }
}

/// A container that could not be created leaves the node as it was.
pub proof fn lemma_item_add_container_failure_changes_nothing(item: ItemView, path: PathView)
    requires
        !(item.add_container(path).1 is Success),
    ensures
        item.add_container(path).0 == item,
    decreases path.len(), 1int,
{
    match item {
        ItemView::Object { .. } => {},
        ItemView::Container { items } => {
            lemma_add_container_failure_changes_nothing(items, path);
        },
    }
}

/// A container that could not be created leaves the inventory as it was.
pub proof fn lemma_add_container_failure_changes_nothing(
    items: Map<Seq<char>, ItemView>,
    path: PathView,
)
    requires
        !(entries_add_container(items, path).1 is Success),
    ensures
        entries_add_container(items, path).0 == items,
    decreases path.len(), 0int,
{
    if path.len() > 1 && items.contains_key(path[0]) {
        lemma_item_add_container_failure_changes_nothing(items[path[0]], path.skip(1));
        assert(items.insert(path[0], items[path[0]]) == items);
    }
}

/// After a container was created, the path leads to an empty container.
pub proof fn lemma_add_container_then_get(items: Map<Seq<char>, ItemView>, path: PathView)
    requires
        entries_add_container(items, path).1 is Success,
    ensures
        entries_get(entries_add_container(items, path).0, path) == Some(
            ItemView::Container { items: Map::empty() },
        ),
    decreases path.len(),
{
    if path.len() > 1 {
        match items[path[0]] {
            ItemView::Object { .. } => {},
            ItemView::Container { items: inner } => {
                lemma_add_container_then_get(inner, path.skip(1));
            },
        }
    } else {
        assert(path.skip(1).len() == 0);
    }
}

/// Where a path leads to something, no container can be created there: the
/// attempt collides, wherever in the tree the path ends.
pub proof fn lemma_add_container_where_taken(items: Map<Seq<char>, ItemView>, path: PathView)
    requires
        entries_get(items, path) is Some,
    ensures
        entries_add_container(items, path).1.with_path(path) == (AddContainerResultView::Collision {
            path,
        }),
        entries_add_container(items, path).0 == items,
    decreases path.len(),
{
    if path.len() > 1 {
        match items[path[0]] {
            ItemView::Object { .. } => {},
            ItemView::Container { items: inner } => {
                lemma_add_container_where_taken(inner, path.skip(1));
                assert(items.insert(path[0], items[path[0]]) == items);
            },
        }
    }
}

/// Creating the same container a second time collides, and changes nothing.
pub proof fn lemma_add_container_twice_collides(items: Map<Seq<char>, ItemView>, path: PathView)
    requires
        entries_add_container(items, path).1 is Success,
    ensures
        entries_add_container(entries_add_container(items, path).0, path).1.with_path(path) == (
        AddContainerResultView::Collision { path }),
        entries_add_container(entries_add_container(items, path).0, path).0 == entries_add_container(
            items,
            path,
        ).0,
{
    lemma_add_container_then_get(items, path);
    lemma_add_container_where_taken(entries_add_container(items, path).0, path);
}

/// An object can be added under a free name of a container that exists,
/// however deep the container lies: the outcome is a success that reports
/// the amount as the new count.
pub proof fn lemma_add_item_into_container(
    items: Map<Seq<char>, ItemView>,
    parent: PathView,
    name: Seq<char>,
    delta: int,
)
    requires
        entries_get(items, parent) matches Some(ItemView::Container { items: inner })
            && !inner.contains_key(name),
    ensures
        entries_add_item(items, parent.push(name), delta).1.with_path(parent.push(name)) == (
        AddItemResultView::Success {
            path: parent.push(name),
            requested: delta,
            available: delta,
        }),
    decreases parent.len(),
{
    let path = parent.push(name);
    assert(path[0] == parent[0]);
    assert(path.skip(1) == parent.skip(1).push(name));
    match items[parent[0]] {
        ItemView::Object { .. } => {},
        ItemView::Container { items: inner } => {
            if parent.len() > 1 {
                lemma_add_item_into_container(inner, parent.skip(1), name, delta);
            } else {
                assert(path.skip(1).skip(1).len() == 0);
            }
        },
    }
}

/// A new container takes an object under any name.
pub proof fn lemma_add_item_into_new_container(
    items: Map<Seq<char>, ItemView>,
    parent: PathView,
    name: Seq<char>,
    delta: int,
)
    requires
        entries_add_container(items, parent).1 is Success,
    ensures
        entries_add_item(
            entries_add_container(items, parent).0,
            parent.push(name),
            delta,
        ).1.with_path(parent.push(name)) == (AddItemResultView::Success {
            path: parent.push(name),
            requested: delta,
            available: delta,
        }),
{
    lemma_add_container_then_get(items, parent);
    lemma_add_item_into_container(entries_add_container(items, parent).0, parent, name, delta);
}

/// Whether two lists of entries agree place by place: in the names, in what
/// the entries stand for, and in whether names are unique below them.
pub open spec fn same_entries(
    left: Seq<(String, InventoryItem)>,
    right: Seq<(String, InventoryItem)>,
) -> bool {
    &&& left.len() == right.len()
    &&& forall|i: int|
        0 <= i < left.len() ==> (#[trigger] left[i]).0@ == right[i].0@ && left[i].1@ == right[i].1@
            && left[i].1.wf() == right[i].1.wf()
}

/// Lists of entries that agree place by place stand for the same map, and
/// names are unique in both or in neither.
pub proof fn lemma_same_entries(left: Seq<(String, InventoryItem)>, right: Seq<(String, InventoryItem)>)
    requires
        same_entries(left, right),
    ensures
        entries_view(left) == entries_view(right),
        entries_wf(left) == entries_wf(right),
    decreases left.len(),
{
    reveal_with_fuel(entries_view, 2);
    if left.len() > 0 {
        assert forall|i: int| 0 <= i < left.drop_first().len() implies (#[trigger] left.drop_first()[i]).0@
            == right.drop_first()[i].0@ && left.drop_first()[i].1@ == right.drop_first()[i].1@
            && left.drop_first()[i].1.wf() == right.drop_first()[i].1.wf() by {
            assert(left.drop_first()[i] == left[i + 1]);
            assert(right.drop_first()[i] == right[i + 1]);
        }
        lemma_same_entries(left.drop_first(), right.drop_first());
        assert(left[0].0@ == right[0].0@);
    }
    if entries_wf(left) {
        assert forall|i: int, j: int| 0 <= i < j < right.len() implies (#[trigger] right[i]).0@ != (
        #[trigger] right[j]).0@ by {
            assert(left[i].0@ != left[j].0@);
        }
        assert forall|i: int| 0 <= i < right.len() implies (#[trigger] right[i]).1.wf() by {
            assert(left[i].1.wf());
        }
    }
    if entries_wf(right) {
        assert forall|i: int, j: int| 0 <= i < j < left.len() implies (#[trigger] left[i]).0@ != (
        #[trigger] left[j]).0@ by {
            assert(right[i].0@ != right[j].0@);
        }
        assert forall|i: int| 0 <= i < left.len() implies (#[trigger] left[i]).1.wf() by {
            assert(right[i].1.wf());
        }
    }
}

/// A copy of a list of entries.
fn clone_entries(entries: &Vec<(String, InventoryItem)>) -> (copy: Vec<(String, InventoryItem)>)
    ensures
        same_entries(copy@, entries@),
    decreases entries, 0int,
{
    let mut copy: Vec<(String, InventoryItem)> = Vec::new();
    let mut i: usize = 0;
    while i < entries.len()
        invariant
            i <= entries.len(),
            copy@.len() == i,
            forall|j: int|
                0 <= j < i ==> (#[trigger] copy@[j]).0@ == entries@[j].0@ && copy@[j].1@
                    == entries@[j].1@ && copy@[j].1.wf() == entries@[j].1.wf(),
        decreases entries.len() - i,
    {
        let name = entries[i].0.clone();
        let item = entries[i].1.clone();
        copy.push((name, item));
        i += 1;
    }
    copy
}

impl Clone for InventoryItem {
    fn clone(&self) -> (copy: InventoryItem)
        ensures
            copy@ == self@,
            copy.wf() == self.wf(),
        decreases self, 1int,
    {
        match self {
            InventoryItem::Object { count } => InventoryItem::Object { count: *count },
            InventoryItem::Container { items } => {
                let copy = clone_entries(items);
                proof {
                    lemma_same_entries(copy@, items@);
                }
                InventoryItem::Container { items: copy }
            },
        }
    }
}

impl Clone for Inventory {
    fn clone(&self) -> (copy: Inventory)
        ensures
            copy@ == self@,
            copy.wf() == self.wf(),
            same_entries(copy.entries(), self.entries()),
    {
        let copy = clone_entries(&self.items);
        proof {
            lemma_same_entries(copy@, self.items@);
        }
        Inventory { items: copy }
    }
}

} // verus!
