//! The filtering core of the file finder: matching a directory entry's type
//! and name against the requested types and name patterns.

use vstd::prelude::*;

use crate::grep::{re_is_match, Pattern};

verus! {

/// The kind of a directory entry.
#[derive(Debug, Eq, PartialEq, Structural, Clone, Copy)]
pub enum EntryType {
    Dir,
    File,
    Link,
}

/// Whether the entry's type is one of those asked for; with no types asked
/// for, nothing qualifies.
pub fn type_matches(entry_type: EntryType, types: &Vec<EntryType>) -> (r: bool)
    ensures
        r == exists|i: int| 0 <= i < types@.len() && types@[i] == entry_type,
{
    let mut i: usize = 0;
    while i < types.len()
        invariant
            i <= types@.len(),
            forall|j: int| 0 <= j < i ==> types@[j] != entry_type,
        decreases types@.len() - i,
    {
        if types[i] == entry_type {
            return true;
        }
        i = i + 1;
    }
    false
}

/// Whether the entry's name matches one of the given patterns; with no
/// patterns, nothing qualifies.
pub fn name_matches(file_name: &str, names: &Vec<Pattern>) -> (r: bool)
    ensures
        r == exists|i: int|
            0 <= i < names@.len() && re_is_match(
                (#[trigger] names@[i]).pattern_chars(),
                names@[i].is_case_insensitive(),
                file_name@,
            ),
{
    let mut i: usize = 0;
    while i < names.len()
        invariant
            i <= names@.len(),
            forall|j: int|
                0 <= j < i ==> !re_is_match(
                    (#[trigger] names@[j]).pattern_chars(),
                    names@[j].is_case_insensitive(),
                    file_name@,
                ),
        decreases names@.len() - i,
    {
        let p: &Pattern = &names[i];
        if p.is_match(file_name) {
            return true;
        }
        i = i + 1;
    }
    false
}

} // verus!
