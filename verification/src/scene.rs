//! The nearest-hit query: of all the elements a ray meets, the one it meets
//! first.
//!
//! Distances along a ray are handled as ordered keys: unsigned integers that
//! sort exactly as the distances do. For the positive distances of a hit, the
//! bit pattern of an IEEE-754 double is such a key.

use vstd::prelude::*;

verus! {

/// Where a ray meets the scene: how far along the ray, and on which element,
/// given by its position among the scene's elements.
#[derive(Clone, Copy, Debug, PartialEq, Eq, Structural)]
pub struct Intersection {
    pub distance: u64,
    pub element: usize,
}

impl Intersection {
    pub fn new(distance: u64, element: usize) -> (hit: Intersection)
        ensures
            hit.distance == distance,
            hit.element == element,
    {
        Intersection { distance, element }
    }
}

/// Whether a ray misses every element.
pub open spec fn misses_all(distances: Seq<Option<u64>>) -> bool {
    forall|element: int| 0 <= element < distances.len() ==> distances[element] is None
}

/// Whether `hit` is the nearest of the hits listed in `distances`, which holds
/// for each element the distance at which the ray meets it, if it does. No
/// element is met sooner, and of several met at the same distance the one
/// that comes first in the scene is the nearest.
pub open spec fn is_nearest(distances: Seq<Option<u64>>, hit: Intersection) -> bool {
    &&& 0 <= hit.element < distances.len()
    &&& distances[hit.element as int] == Some(hit.distance)
    &&& forall|other: int|
        0 <= other < distances.len() && distances[other] is Some ==> hit.distance
            <= distances[other]->0
    &&& forall|other: int|
        0 <= other < hit.element && distances[other] is Some ==> hit.distance
            < distances[other]->0
}

/// Finds the nearest intersection among the elements' hit distances. Elements
/// that the ray does not meet take no part; if it meets none, there is no
/// intersection.
pub fn trace(distances: &Vec<Option<u64>>) -> (nearest: Option<Intersection>)
    ensures
        nearest is None <==> misses_all(distances@),
        nearest is Some ==> is_nearest(distances@, nearest->0),
{
    let mut nearest: Option<Intersection> = None;
    let mut element: usize = 0;
    while element < distances.len()
        invariant
            element <= distances.len(),
            nearest is None <==> misses_all(distances@.take(element as int)),
            nearest is Some ==> is_nearest(distances@.take(element as int), nearest->0),
        decreases distances.len() - element,
    {
        let ghost seen = distances@.take(element as int);
        let ghost grown = distances@.take(element + 1);
        assert(forall|other: int| 0 <= other < element ==> grown[other] == seen[other]);
        assert(grown[element as int] == distances@[element as int]);
        match distances[element] {
            None => {},
            Some(distance) => {
                let closer: bool = match nearest {
                    None => true,
                    Some(best) => distance < best.distance,
                };
                if closer {
                    nearest = Some(Intersection::new(distance, element));
                }
            },
        }
        element += 1;
    }
    assert(distances@.take(element as int) =~= distances@);
    nearest
}

/// The nearest intersection is unique: the query has exactly one right answer.
pub proof fn lemma_nearest_is_unique(
    distances: Seq<Option<u64>>,
    first: Intersection,
    second: Intersection,
)
    requires
        is_nearest(distances, first),
        is_nearest(distances, second),
    ensures
        first == second,
{
    if first.element < second.element {
        assert(second.distance < distances[first.element as int]->0);
    } else if second.element < first.element {
        assert(first.distance < distances[second.element as int]->0);
    }
}

} // verus!
