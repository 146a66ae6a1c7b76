//! The nearest hit along a ray, and the colour it gives.
//!
//! The scene is scanned in order. A hit counts if its distance is a number
//! below infinity, and it takes the lead only from a hit that is strictly
//! farther off: of several hits at the same least distance the first one in
//! the scene wins. Where nothing counts the ray leaves the scene, and its
//! colour is black.

use crate::intersection::Intersection;
use crate::scalar::{lemma_infinity_is_greatest, Scalar, INFINITY_BITS};
use crate::vector::Vector3f;
use vstd::prelude::*;

verus! {

/// The outcome of one sphere counts: there is a hit, and it is nearer than infinity.
pub open spec fn eligible(hit: Option<Intersection>) -> bool {
    hit matches Some(h) && h.distance.spec_less_than(Scalar { bits: INFINITY_BITS })
}

/// Hit `i` is nearer than hit `j`.
pub open spec fn nearer(hits: Seq<Option<Intersection>>, i: int, j: int) -> bool {
    hits[i].unwrap().distance.spec_less_than(hits[j].unwrap().distance)
}

/// Hit `i` leads among the first `n` outcomes: it counts, it is nearer than
/// every hit before it that counts, and no hit after it that counts is nearer.
pub open spec fn leads(hits: Seq<Option<Intersection>>, n: int, i: int) -> bool {
    &&& 0 <= i < n <= hits.len()
    &&& eligible(hits[i])
    &&& forall|j: int| 0 <= j < i && eligible(#[trigger] hits[j]) ==> nearer(hits, i, j)
    &&& forall|j: int| i < j < n && eligible(#[trigger] hits[j]) ==> !nearer(hits, j, i)
}

/// Hit `i` is the nearest hit of the scene.
pub open spec fn wins(hits: Seq<Option<Intersection>>, i: int) -> bool {
    leads(hits, hits.len() as int, i)
}

/// The index of the nearest hit, if any hit counts.
pub open spec fn nearest(hits: Seq<Option<Intersection>>) -> Option<int> {
    if exists|i: int| wins(hits, i) {
        Some(choose|i: int| wins(hits, i))
    } else {
        None
    }
}

/// The colour seen along the ray: that of the nearest hit, or black.
pub open spec fn spec_trace(hits: Seq<Option<Intersection>>) -> Vector3f {
    match nearest(hits) {
        Some(i) => hits[i].unwrap().color,
        None => Vector3f::spec_zero(),
    }
}

/// At most one hit is the nearest.
pub proof fn lemma_wins_is_unique(hits: Seq<Option<Intersection>>, i: int, j: int)
    requires
        wins(hits, i),
        wins(hits, j),
    ensures
        i == j,
{
    if i < j {
        assert(nearer(hits, j, i));
    } else if j < i {
        assert(nearer(hits, i, j));
    }
}

/// A hit that wins is the one `nearest` names.
pub proof fn lemma_winner_is_nearest(hits: Seq<Option<Intersection>>, i: int)
    requires
        wins(hits, i),
    ensures
        nearest(hits) == Some(i),
        spec_trace(hits) == hits[i].unwrap().color,
{
    let k: int = choose|k: int| wins(hits, k);
    lemma_wins_is_unique(hits, i, k);
}

/// Where no hit counts there is no nearest hit, and the colour is black.
pub proof fn lemma_no_hit_is_black(hits: Seq<Option<Intersection>>)
    requires
        forall|j: int| 0 <= j < hits.len() ==> !eligible(#[trigger] hits[j]),
    ensures
        nearest(hits) is None,
        spec_trace(hits) == Vector3f::spec_zero(),
{
}

/// An empty scene is black along every ray.
pub proof fn lemma_empty_scene_is_black()
    ensures
        spec_trace(Seq::<Option<Intersection>>::empty()) == Vector3f::spec_zero(),
{
    lemma_no_hit_is_black(Seq::<Option<Intersection>>::empty());
}

/// A hit that is strictly nearer than every other hit that counts is the
/// nearest, wherever in the scene it stands.
pub proof fn lemma_strictly_nearest_wins(hits: Seq<Option<Intersection>>, i: int)
    requires
        0 <= i < hits.len(),
        eligible(hits[i]),
        forall|j: int|
            0 <= j < hits.len() && j != i && eligible(#[trigger] hits[j]) ==> nearer(hits, i, j),
    ensures
        nearest(hits) == Some(i),
        spec_trace(hits) == hits[i].unwrap().color,
{
    assert(wins(hits, i));
    lemma_winner_is_nearest(hits, i);
}

/// Of two hits along one ray the nearer gives the colour, whichever of the two
/// spheres comes first in the scene.
pub proof fn lemma_nearer_of_two_wins(a: Intersection, b: Intersection)
    requires
        a.distance.spec_less_than(b.distance),
    ensures
        spec_trace(seq![Some(a), Some(b)]) == a.color,
        spec_trace(seq![Some(b), Some(a)]) == a.color,
{
    lemma_infinity_is_greatest(b.distance);
    lemma_strictly_nearest_wins(seq![Some(a), Some(b)], 0);
    lemma_strictly_nearest_wins(seq![Some(b), Some(a)], 1);
}

/// Of two hits at the same distance the one that comes first in the scene
/// gives the colour.
pub proof fn lemma_first_of_equals_wins(a: Intersection, b: Intersection)
    requires
        eligible(Some(a)),
        !b.distance.spec_is_nan(),
        a.distance.value() == b.distance.value(),
    ensures
        spec_trace(seq![Some(a), Some(b)]) == a.color,
{
    let hits = seq![Some(a), Some(b)];
    assert(wins(hits, 0));
    lemma_winner_is_nearest(hits, 0);
}

/// The index of the nearest hit among the outcomes of the scene's spheres,
/// in scene order.
pub fn nearest_hit(hits: &Vec<Option<Intersection>>) -> (best: Option<usize>)
    ensures
        best matches Some(i) ==> wins(hits@, i as int),
        best is None <==> forall|j: int| 0 <= j < hits.len() ==> !eligible(#[trigger] hits@[j]),
        match best {
            Some(i) => nearest(hits@) == Some(i as int),
            None => nearest(hits@) is None,
        },
{
    let mut best: Option<usize> = None;
    let mut limit = Scalar::infinity();
    let mut k: usize = 0;
    while k < hits.len()
        invariant
            k <= hits.len(),
            match best {
                Some(i) => leads(hits@, k as int, i as int) && limit == hits@[i as int].unwrap().distance,
                None => limit.bits == INFINITY_BITS && forall|j: int|
                    0 <= j < k ==> !eligible(#[trigger] hits@[j]),
            },
        decreases hits.len() - k,
    {
        match hits[k] {
            Some(hit) => {
                if hit.distance.less_than(limit) {
                    best = Some(k);
                    limit = hit.distance;
                }
            },
            None => {},
        }
        k += 1;
    }
    proof {
        match best {
            Some(i) => {
                lemma_winner_is_nearest(hits@, i as int);
            },
            None => {
                lemma_no_hit_is_black(hits@);
            },
        }
    }
    best
}

/// The colour seen along a ray, from the outcomes of the scene's spheres in
/// scene order: the colour of the nearest hit, and black where the ray hits
/// nothing.
pub fn trace(hits: &Vec<Option<Intersection>>) -> (color: Vector3f)
    ensures
        color == spec_trace(hits@),
        (forall|j: int| 0 <= j < hits.len() ==> !eligible(#[trigger] hits@[j])) ==> color
            == Vector3f::spec_zero(),
        forall|i: int| wins(hits@, i) ==> color == hits@[i].unwrap().color,
{
    let best = nearest_hit(hits);
    proof {
        assert forall|i: int| wins(hits@, i) implies nearest(hits@) == Some(i) by {
            lemma_winner_is_nearest(hits@, i);
        }
    }
    match best {
        Some(i) => {
            match hits[i] {
                Some(hit) => hit.color,
                None => Vector3f::zero(),
            }
        },
        None => Vector3f::zero(),
    }
}

} // verus!
