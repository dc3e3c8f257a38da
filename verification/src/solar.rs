use vstd::prelude::*;

verus! {

/// The nearest of a list of distances, carried as order keys (a smaller key
/// is a smaller distance), against a starting bound `limit`. Returns `None`
/// for an empty list; otherwise the index and key of the first distance
/// strictly below `limit` and every distance before it, or `(0, limit)` when
/// no distance is below `limit`.
pub fn closest_index(dists: &Vec<u32>, limit: u32) -> (r: Option<(usize, u32)>)
    ensures
        r is None <==> dists@.len() == 0,
        r matches Some((i, m)) ==> {
            &&& m <= limit
            &&& forall|j: int| 0 <= j < dists@.len() ==> m <= #[trigger] dists@[j]
            &&& if m < limit {
                &&& i < dists@.len()
                &&& dists@[i as int] == m
                &&& forall|j: int| 0 <= j < i ==> m < #[trigger] dists@[j]
            } else {
                i == 0 && m == limit
            }
        },
{
    if dists.len() == 0 {
        return None;
    }
    let mut best: usize = 0;
    let mut min: u32 = limit;
    let mut i: usize = 0;
    while i < dists.len()
        invariant
            i <= dists@.len(),
            min <= limit,
            forall|j: int| 0 <= j < i ==> min <= #[trigger] dists@[j],
            if min < limit {
                &&& best < i
                &&& dists@[best as int] == min
                &&& forall|j: int| 0 <= j < best ==> min < #[trigger] dists@[j]
            } else {
                best == 0
            },
        decreases dists@.len() - i,
    {
        if dists[i] < min {
            min = dists[i];
            best = i;
        }
        i = i + 1;
    }
    Some((best, min))
}

/// The first index at which a distance key lies strictly below the matching
/// collision radius key, or `None` when there is none.
pub fn first_colliding(dists: &Vec<u32>, radii: &Vec<u32>) -> (r: Option<usize>)
    requires
        dists@.len() == radii@.len(),
    ensures
        r matches Some(i) ==> i < dists@.len() && dists@[i as int] < radii@[i as int] && forall|
            j: int,
        | 0 <= j < i ==> #[trigger] dists@[j] >= radii@[j],
        r is None ==> forall|j: int| 0 <= j < dists@.len() ==> #[trigger] dists@[j] >= radii@[j],
{
    let mut i: usize = 0;
    while i < dists.len()
        invariant
            dists@.len() == radii@.len(),
            i <= dists@.len(),
            forall|j: int| 0 <= j < i ==> #[trigger] dists@[j] >= radii@[j],
        decreases dists@.len() - i,
    {
        if dists[i] < radii[i] {
            return Some(i);
        }
        i = i + 1;
    }
    None
}

} // verus!
