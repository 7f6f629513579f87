//! Lists of named entries, searched by name.

use vstd::prelude::*;

verus! {

/// Whether `index` is the place of the first entry called `name`.
pub open spec fn is_first_named<T>(entries: Seq<(String, T)>, name: Seq<char>, index: int) -> bool {
    &&& 0 <= index < entries.len()
    &&& entries[index].0@ == name
    &&& forall|j: int| 0 <= j < index ==> (#[trigger] entries[j]).0@ != name
}

/// Whether no entry is called `name`.
pub open spec fn is_unnamed<T>(entries: Seq<(String, T)>, name: Seq<char>) -> bool {
    forall|j: int| 0 <= j < entries.len() ==> (#[trigger] entries[j]).0@ != name
}

/// The place of the first entry called `name`, or the number of entries
/// where there is none.
pub fn position<T>(entries: &Vec<(String, T)>, name: &String) -> (index: usize)
    ensures
        index <= entries.len(),
        index < entries.len() ==> is_first_named(entries@, name@, index as int),
        index == entries.len() ==> is_unnamed(entries@, name@),
{
    let mut index: usize = 0;
    while index < entries.len() && !(entries[index].0 == *name)
        invariant
            index <= entries.len(),
            forall|j: int| 0 <= j < index ==> (#[trigger] entries@[j]).0@ != name@,
        decreases entries.len() - index,
    {
        index += 1;
    }
    index
}

} // verus!
