//! Looking names up in the catalog.

use vstd::prelude::*;
use crate::structs::{Exercise, ExerciseSpec};

verus! {

/// `i` is the first place of `keys` that holds `key`.
pub open spec fn is_first_place(keys: Seq<Seq<char>>, key: Seq<char>, i: int) -> bool {
    &&& 0 <= i < keys.len()
    &&& keys[i] == key
    &&& forall|j: int| 0 <= j < i ==> #[trigger] keys[j] != key
}

/// The first place of `keys` that holds `key`, if there is any.
pub open spec fn first_place(keys: Seq<Seq<char>>, key: Seq<char>) -> Option<int> {
    if exists|i: int| is_first_place(keys, key, i) {
        Some(choose|i: int| is_first_place(keys, key, i))
    } else {
        None
    }
}

/// A first place of a key is the place that `first_place` gives.
pub proof fn lemma_first_place_is(keys: Seq<Seq<char>>, key: Seq<char>, i: int)
    requires
        is_first_place(keys, key, i),
    ensures
        first_place(keys, key) == Some(i),
{
    let k = choose|k: int| is_first_place(keys, key, k);
    assert(is_first_place(keys, key, k));
    if k < i {
        assert(keys[k] != key);
    }
    if i < k {
        assert(keys[i] != key);
    }
}

/// What `first_place` gives is a first place of the key; a key that is not
/// held has none.
pub proof fn lemma_first_place(keys: Seq<Seq<char>>, key: Seq<char>)
    ensures
        match first_place(keys, key) {
            Some(i) => is_first_place(keys, key, i),
            None => !keys.contains(key),
        },
{
    if first_place(keys, key) is None {
        if keys.contains(key) {
            let j = choose|j: int| 0 <= j < keys.len() && keys[j] == key;
            lemma_first_exists(keys, key, j);
        }
    }
}

proof fn lemma_first_exists(keys: Seq<Seq<char>>, key: Seq<char>, j: int)
    requires
        0 <= j < keys.len(),
        keys[j] == key,
    ensures
        exists|i: int| is_first_place(keys, key, i),
    decreases j,
{
    if forall|k: int| 0 <= k < j ==> #[trigger] keys[k] != key {
        assert(is_first_place(keys, key, j));
    } else {
        let k = choose|k: int| 0 <= k < j && #[trigger] keys[k] == key;
        lemma_first_exists(keys, key, k);
    }
}

/// The names of the catalog's exercises, in its order.
pub open spec fn exercise_names(catalog: Seq<ExerciseSpec>) -> Seq<Seq<char>> {
    Seq::new(catalog.len(), |i: int| catalog[i].name)
}

/// The place of the exercise that `name` stands for: the first one of that
/// name, if there is any.
pub open spec fn lookup(catalog: Seq<ExerciseSpec>, name: Seq<char>) -> Option<int> {
    first_place(exercise_names(catalog), name)
}

/// Finds the exercise called `name`: the place of the first one, if any.
pub fn find_exercise(exercises: &Vec<Exercise>, name: &String) -> (found: Option<usize>)
    ensures
        match found {
            Some(i) => lookup(exercises.deep_view(), name@) == Some(i as int) && i < exercises.len()
                && exercises[i as int].name@ == name@,
            None => lookup(exercises.deep_view(), name@) is None,
        },
{
    let mut i: usize = 0;
    while i < exercises.len()
        invariant
            i <= exercises.len(),
            forall|j: int| 0 <= j < i ==> #[trigger] exercise_names(exercises.deep_view())[j] != name@,
        decreases exercises.len() - i,
    {
        if exercises[i].name == *name {
            proof {
                lemma_first_place_is(exercise_names(exercises.deep_view()), name@, i as int);
            }
            return Some(i);
        }
        i += 1;
    }
    proof {
        lemma_first_place(exercise_names(exercises.deep_view()), name@);
    }
    None
}

/// The muscles of a table of rows keyed by muscle, in its order.
pub open spec fn row_keys<T>(rows: Seq<(Seq<char>, T)>) -> Seq<Seq<char>> {
    Seq::new(rows.len(), |i: int| rows[i].0)
}

/// Whether `names` holds `name`.
pub fn contains_name(names: &Vec<String>, name: &String) -> (held: bool)
    ensures
        held == names.deep_view().contains(name@),
{
    let mut i: usize = 0;
    while i < names.len()
        invariant
            i <= names.len(),
            forall|j: int| 0 <= j < i ==> (#[trigger] names.deep_view()[j]) != name@,
        decreases names.len() - i,
    {
        if names[i] == *name {
            assert(names.deep_view()[i as int] == name@);
            return true;
        }
        i += 1;
    }
    false
}

} // verus!

verus! {

/// Whether `names[k]` already stands before place `k`.
pub fn occurs_before(names: &Vec<String>, k: usize) -> (held: bool)
    requires
        k < names.len(),
    ensures
        held == names.deep_view().take(k as int).contains(names[k as int]@),
{
    let mut i: usize = 0;
    while i < k
        invariant
            i <= k < names.len(),
            forall|j: int| 0 <= j < i ==> #[trigger] names.deep_view()[j] != names[k as int]@,
        decreases k - i,
    {
        if names[i] == names[k] {
            assert(names.deep_view().take(k as int)[i as int] == names[k as int]@);
            return true;
        }
        i += 1;
    }
    assert forall|j: int| 0 <= j < names.deep_view().take(k as int).len() implies names.deep_view().take(
        k as int,
    )[j] != names[k as int]@ by {
        assert(names.deep_view()[j] != names[k as int]@);
    }
    false
}

} // verus!
