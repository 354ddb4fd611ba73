//! Choosing among candidates by keys that order as their costs do.
use vstd::prelude::*;

verus! {

/// `i` is the first of the least keys below `bound`.
pub open spec fn first_least(keys: Seq<i64>, bound: int, i: int) -> bool {
    &&& 0 <= i < keys.len()
    &&& keys[i] < bound
    &&& forall|j: int| 0 <= j < keys.len() ==> keys[i] <= #[trigger] keys[j]
    &&& forall|j: int| 0 <= j < i ==> keys[i] < #[trigger] keys[j]
}

/// The first of the least keys; none where no key is below `bound`.
pub fn first_lowest(keys: &[i64], bound: i64) -> (r: Option<usize>)
    ensures
        match r {
            Some(i) => first_least(keys@, bound as int, i as int),
            None => forall|j: int| 0 <= j < keys@.len() ==> bound <= #[trigger] keys@[j],
        },
{
    let mut best: Option<usize> = None;
    let mut least: i64 = bound;
    for i in 0..keys.len()
        invariant
            best is None ==> least == bound,
            best matches Some(b) ==> b < i && keys@[b as int] == least && least < bound,
            forall|j: int| 0 <= j < i ==> least <= #[trigger] keys@[j],
            best matches Some(b) ==> forall|j: int| 0 <= j < b ==> least < #[trigger] keys@[j],
    {
        if keys[i] < least {
            least = keys[i];
            best = Some(i);
        }
    }
    best
}

/// The first of the least keys: none is smaller, and none before it is as small.
pub proof fn law_first_least(keys: Seq<i64>, bound: int, i: int, j: int)
    requires
        first_least(keys, bound, i),
        0 <= j < keys.len(),
    ensures
        0 <= i < keys.len(),
        keys[i] < bound,
        keys[i] <= keys[j],
        j < i ==> keys[i] < keys[j],
{
}

} // verus!
