use vstd::prelude::*;

use crate::decode::Decoded;
use crate::geometry::BoundingBox;

verus! {

/// A row that passed the gates: its box, its objectness as confidence, and
/// its class.
#[derive(Clone, Copy, Debug, PartialEq, Eq, Structural)]
pub struct Candidate {
    pub bbox: BoundingBox,
    pub confidence: i32,
    pub class_id: usize,
}

/// A decoded row becomes a candidate when its objectness and its best class
/// score are both strictly above the threshold and its best class is listed.
pub open spec fn accept_spec(d: Decoded, whitelist: Seq<usize>, conf_threshold: int) -> Option<
    Candidate,
> {
    match d.best_class {
        Some(best) => if d.objectness > conf_threshold && best.score > conf_threshold
            && whitelist.contains(best.class_id) {
            Some(Candidate { bbox: d.bbox, confidence: d.objectness, class_id: best.class_id })
        } else {
            None
        },
        None => None,
    }
}

/// Whether `id` is one of `whitelist`.
pub fn is_listed(whitelist: &[usize], id: usize) -> (r: bool)
    ensures
        r == whitelist@.contains(id),
{
    let mut i: usize = 0;
    while i < whitelist.len()
        invariant
            i <= whitelist@.len(),
            forall|j: int| 0 <= j < i ==> whitelist@[j] != id,
        decreases whitelist@.len() - i,
    {
        if whitelist[i] == id {
            assert(whitelist@[i as int] == id);
            return true;
        }
        i = i + 1;
    }
    false
}

/// Applies the confidence and class gates to a decoded row.
pub fn accept(decoded: &Decoded, whitelist: &[usize], conf_threshold: i32) -> (r: Option<Candidate>)
    ensures
        r == accept_spec(*decoded, whitelist@, conf_threshold as int),
        r is Some <==> decoded.objectness > conf_threshold && (decoded.best_class matches Some(
            best,
        ) && best.score > conf_threshold && whitelist@.contains(best.class_id)),
        r matches Some(c) ==> whitelist@.contains(c.class_id) && c.confidence > conf_threshold,
{
    match decoded.best_class {
        Some(best) => {
            if decoded.objectness > conf_threshold && best.score > conf_threshold && is_listed(
                whitelist,
                best.class_id,
            ) {
                Some(
                    Candidate {
                        bbox: decoded.bbox,
                        confidence: decoded.objectness,
                        class_id: best.class_id,
                    },
                )
            } else {
                None
            }
        },
        None => None,
    }
}

} // verus!
