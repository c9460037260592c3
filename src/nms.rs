use vstd::prelude::*;

use crate::filter::Candidate;
use crate::geometry::{lemma_overlaps_symmetric, overlaps, overlaps_spec};

verus! {

/// Which candidates take part at all: those above the confidence threshold.
pub open spec fn eligible(c: Seq<Candidate>, conf_threshold: int) -> Seq<bool> {
    Seq::new(c.len(), |i: int| c[i].confidence > conf_threshold)
}

/// Number of positions still in play.
pub open spec fn num_alive(alive: Seq<bool>) -> nat
    decreases alive.len(),
{
    if alive.len() == 0 {
        0
    } else {
        num_alive(alive.drop_last()) + if alive.last() {
            1nat
        } else {
            0nat
        }
    }
}

/// Among the first `n` positions in play, the one of highest confidence, the
/// lowest index on a tie; `-1` when none is in play.
pub open spec fn best_alive(c: Seq<Candidate>, alive: Seq<bool>, n: int) -> int
    decreases n,
{
    if n <= 0 {
        -1
    } else {
        let b = best_alive(c, alive, n - 1);
        if alive[n - 1] && (b < 0 || c[n - 1].confidence > c[b].confidence) {
            n - 1
        } else {
            b
        }
    }
}

/// What stays in play after `b` is picked: neither `b` nor anything whose
/// overlap with `b` exceeds the threshold.
pub open spec fn survivors(c: Seq<Candidate>, alive: Seq<bool>, b: int, iou_threshold: int) -> Seq<
    bool,
> {
    Seq::new(
        alive.len(),
        |i: int| alive[i] && i != b && !overlaps_spec(c[i].bbox, c[b].bbox, iou_threshold),
    )
}

/// Greedy suppression: pick the best candidate in play, keep it, drop
/// everything that overlaps it too much, and go on until none is left.
pub open spec fn greedy(c: Seq<Candidate>, alive: Seq<bool>, iou_threshold: int) -> Seq<int>
    decreases num_alive(alive),
    via greedy_decreases
{
    let b = best_alive(c, alive, alive.len() as int);
    if b < 0 {
        Seq::empty()
    } else {
        seq![b].add(greedy(c, survivors(c, alive, b, iou_threshold), iou_threshold))
    }
}

#[via_fn]
proof fn greedy_decreases(c: Seq<Candidate>, alive: Seq<bool>, iou_threshold: int) {
    let b = best_alive(c, alive, alive.len() as int);
    if b >= 0 {
        lemma_best_alive(c, alive, alive.len() as int);
        lemma_num_alive_decreases(alive, survivors(c, alive, b, iou_threshold), b);
    }
}

/// The indices kept by suppression over all candidates above the confidence
/// threshold, in the order picked.
pub open spec fn suppress_spec(c: Seq<Candidate>, conf_threshold: int, iou_threshold: int) -> Seq<
    int,
> {
    greedy(c, eligible(c, conf_threshold), iou_threshold)
}

/// Suppression picks candidate `i` before candidate `j`: higher confidence
/// first, the lower index among equals.
pub open spec fn picked_before(c: Seq<Candidate>, i: int, j: int) -> bool {
    c[i].confidence > c[j].confidence || (c[i].confidence == c[j].confidence && i < j)
}

pub open spec fn as_ints(s: Seq<usize>) -> Seq<int> {
    s.map_values(|i: usize| i as int)
}

proof fn lemma_best_alive(c: Seq<Candidate>, alive: Seq<bool>, n: int)
    requires
        0 <= n <= alive.len(),
    ensures
        ({
            let b = best_alive(c, alive, n);
            &&& b >= -1
            &&& b == -1 <==> forall|j: int| 0 <= j < n ==> !alive[j]
            &&& b >= 0 ==> {
                &&& 0 <= b < n
                &&& alive[b]
                &&& forall|j: int| 0 <= j < n && alive[j] ==> c[j].confidence <= c[b].confidence
                &&& forall|j: int| 0 <= j < b && alive[j] ==> c[j].confidence < c[b].confidence
            }
        }),
    decreases n,
{
    if n > 0 {
        lemma_best_alive(c, alive, n - 1);
        let p = best_alive(c, alive, n - 1);
        let b = best_alive(c, alive, n);
        if b >= 0 {
            assert forall|j: int| 0 <= j < n && alive[j] implies c[j].confidence
                <= c[b].confidence by {
                if j < n - 1 && b == n - 1 {
                    assert(c[j].confidence <= c[p].confidence);
                }
            }
            assert forall|j: int| 0 <= j < b && alive[j] implies c[j].confidence
                < c[b].confidence by {
                if b == n - 1 && p >= 0 {
                    assert(c[j].confidence <= c[p].confidence);
                }
            }
        }
    }
}

proof fn lemma_num_alive_decreases(a: Seq<bool>, a2: Seq<bool>, b: int)
    requires
        a.len() == a2.len(),
        forall|i: int| 0 <= i < a.len() && a2[i] ==> a[i],
        0 <= b < a.len(),
        a[b],
        !a2[b],
    ensures
        num_alive(a2) < num_alive(a),
    decreases a.len(),
{
    if b < a.len() - 1 {
        lemma_num_alive_decreases(a.drop_last(), a2.drop_last(), b);
    } else {
        lemma_num_alive_mono(a.drop_last(), a2.drop_last());
    }
}

proof fn lemma_num_alive_mono(a: Seq<bool>, a2: Seq<bool>)
    requires
        a.len() == a2.len(),
        forall|i: int| 0 <= i < a.len() && a2[i] ==> a[i],
    ensures
        num_alive(a2) <= num_alive(a),
    decreases a.len(),
{
    if a.len() > 0 {
        lemma_num_alive_mono(a.drop_last(), a2.drop_last());
    }
}

proof fn lemma_greedy_kept(c: Seq<Candidate>, alive: Seq<bool>, t: int)
    ensures
        ({
            let g = greedy(c, alive, t);
            &&& forall|k: int| 0 <= k < g.len() ==> 0 <= g[k] < alive.len() && alive[g[k]]
            &&& forall|k1: int, k2: int|
                #![trigger g[k1], g[k2]]
                0 <= k1 < k2 < g.len() ==> g[k1] != g[k2] && !overlaps_spec(
                    c[g[k2]].bbox,
                    c[g[k1]].bbox,
                    t,
                ) && picked_before(c, g[k1], g[k2])
        }),
    decreases num_alive(alive),
{
    let b = best_alive(c, alive, alive.len() as int);
    lemma_best_alive(c, alive, alive.len() as int);
    if b < 0 {
        assert(greedy(c, alive, t) == Seq::<int>::empty());
    } else {
        let s = survivors(c, alive, b, t);
        lemma_num_alive_decreases(alive, s, b);
        lemma_greedy_kept(c, s, t);
        let g = greedy(c, alive, t);
        let rest = greedy(c, s, t);
        assert(g == seq![b].add(rest));
        assert forall|k: int| 0 <= k < g.len() implies 0 <= g[k] < alive.len() && alive[g[k]] by {
            if k > 0 {
                assert(g[k] == rest[k - 1]);
            }
        }
        assert forall|k1: int, k2: int| 0 <= k1 < k2 < g.len() implies g[k1] != g[k2]
            && !overlaps_spec(c[g[k2]].bbox, c[g[k1]].bbox, t) && picked_before(c, g[k1], g[k2]) by {
            assert(g[k2] == rest[k2 - 1]);
            let x = rest[k2 - 1];
            assert(0 <= x < s.len() && s[x]);
            if k1 > 0 {
                assert(g[k1] == rest[k1 - 1]);
                assert(rest[k1 - 1] != rest[k2 - 1]);
            } else {
                assert(alive[x] && x != b);
                assert(c[x].confidence <= c[b].confidence);
                if x < b {
                    assert(c[x].confidence < c[b].confidence);
                }
            }
        }
    }
}

/// The positions from `i` on.
spec fn from_position(n: int, i: int) -> Seq<bool> {
    Seq::new(n as nat, |j: int| j >= i)
}

proof fn lemma_greedy_in_order(c: Seq<Candidate>, t: int, i: int)
    requires
        0 <= i <= c.len(),
        forall|p: int, q: int|
            #![trigger c[p], c[q]]
            0 <= p < q < c.len() ==> picked_before(c, p, q) && !overlaps_spec(
                c[q].bbox,
                c[p].bbox,
                t,
            ),
    ensures
        greedy(c, from_position(c.len() as int, i), t) == Seq::new(
            (c.len() - i) as nat,
            |j: int| j + i,
        ),
    decreases c.len() - i,
{
    let n = c.len() as int;
    let a = from_position(n, i);
    let b = best_alive(c, a, n);
    lemma_best_alive(c, a, n);
    if i == n {
        assert(b == -1);
        assert(greedy(c, a, t) =~= Seq::new((c.len() - i) as nat, |j: int| j + i));
    } else {
        assert(a[i]);
        assert(b >= i);
        if b > i {
            assert(picked_before(c, i, b));
            assert(c[i].confidence <= c[b].confidence);
            assert(c[i].confidence < c[b].confidence);
        }
        assert(b == i);
        let s = survivors(c, a, i, t);
        assert forall|j: int| 0 <= j < n implies s[j] == from_position(n, i + 1)[j] by {
            if j > i {
                assert(!overlaps_spec(c[j].bbox, c[i].bbox, t));
            }
        }
        assert(s =~= from_position(n, i + 1));
        lemma_greedy_in_order(c, t, i + 1);
        assert(greedy(c, a, t) =~= Seq::new((c.len() - i) as nat, |j: int| j + i));
    }
}

/// Every index that suppression keeps is a position of the candidate list.
pub proof fn lemma_suppress_kept_in_range(c: Seq<Candidate>, conf_threshold: int, iou_threshold: int)
    ensures
        forall|j: int|
            0 <= j < suppress_spec(c, conf_threshold, iou_threshold).len() ==> 0 <= #[trigger] suppress_spec(
                c,
                conf_threshold,
                iou_threshold,
            )[j] < c.len(),
{
    lemma_greedy_kept(c, eligible(c, conf_threshold), iou_threshold);
}

/// Of two candidates above the confidence threshold with different
/// confidences, the more confident one is always kept, and the other one is
/// kept as well exactly when their overlap does not exceed the threshold.
pub proof fn lemma_suppress_two(c: Seq<Candidate>, conf_threshold: int, iou_threshold: int)
    requires
        c.len() == 2,
        c[0].confidence > conf_threshold,
        c[1].confidence > conf_threshold,
        c[0].confidence != c[1].confidence,
    ensures
        ({
            let hi: int = if c[0].confidence > c[1].confidence {
                0
            } else {
                1
            };
            let lo: int = 1 - hi;
            &&& overlaps_spec(c[0].bbox, c[1].bbox, iou_threshold) ==> suppress_spec(
                c,
                conf_threshold,
                iou_threshold,
            ) == seq![hi]
            &&& !overlaps_spec(c[0].bbox, c[1].bbox, iou_threshold) ==> suppress_spec(
                c,
                conf_threshold,
                iou_threshold,
            ) == seq![hi, lo]
        }),
{
    let t = iou_threshold;
    let hi: int = if c[0].confidence > c[1].confidence {
        0
    } else {
        1
    };
    let lo: int = 1 - hi;
    let a = eligible(c, conf_threshold);
    assert(a[0] && a[1]);
    assert(best_alive(c, a, 0) == -1);
    assert(best_alive(c, a, 1) == 0);
    assert(best_alive(c, a, 2) == hi);
    lemma_overlaps_symmetric(c[0].bbox, c[1].bbox, t);
    let s = survivors(c, a, hi, t);
    lemma_best_alive(c, s, 2);
    assert(!s[hi]);
    assert(best_alive(c, s, 0) == -1);
    if overlaps_spec(c[0].bbox, c[1].bbox, t) {
        assert(!s[lo]);
        assert(best_alive(c, s, 2) == -1);
        assert(greedy(c, s, t) == Seq::<int>::empty());
        assert(greedy(c, a, t) =~= seq![hi]);
    } else {
        assert(s[lo]);
        assert(best_alive(c, s, 2) == lo);
        let s2 = survivors(c, s, lo, t);
        lemma_best_alive(c, s2, 2);
        assert(!s2[0] && !s2[1]);
        assert(best_alive(c, s2, 0) == -1);
        assert(best_alive(c, s2, 2) == -1);
        assert(greedy(c, s2, t) == Seq::<int>::empty());
        assert(greedy(c, s, t) =~= seq![lo]);
        assert(greedy(c, a, t) =~= seq![hi, lo]);
    }
}

/// Suppression is idempotent: run again, with the same thresholds, on the
/// candidates it kept (in the order it kept them), it keeps every one of them,
/// in that same order.
pub proof fn lemma_suppress_idempotent(c: Seq<Candidate>, conf_threshold: int, iou_threshold: int)
    ensures
        ({
            let k = suppress_spec(c, conf_threshold, iou_threshold);
            let kept = Seq::new(k.len(), |i: int| c[k[i]]);
            suppress_spec(kept, conf_threshold, iou_threshold) == Seq::new(k.len(), |i: int| i)
        }),
{
    let t = iou_threshold;
    let a = eligible(c, conf_threshold);
    let k = suppress_spec(c, conf_threshold, t);
    let kept = Seq::new(k.len(), |i: int| c[k[i]]);
    lemma_greedy_kept(c, a, t);
    assert forall|p: int, q: int| 0 <= p < q < kept.len() implies picked_before(kept, p, q)
        && !overlaps_spec(kept[q].bbox, kept[p].bbox, t) by {
        assert(picked_before(c, k[p], k[q]));
    }
    let a2 = eligible(kept, conf_threshold);
    assert forall|j: int| 0 <= j < kept.len() implies a2[j] == from_position(
        kept.len() as int,
        0,
    )[j] by {
        assert(a[k[j]]);
    }
    assert(a2 =~= from_position(kept.len() as int, 0));
    lemma_greedy_in_order(kept, t, 0);
    assert(Seq::new((kept.len() - 0) as nat, |j: int| j + 0) =~= Seq::new(k.len(), |i: int| i));
}

/// Index of the best candidate still in play, if any.
fn pick_best(c: &[Candidate], alive: &Vec<bool>) -> (r: Option<usize>)
    requires
        alive@.len() == c@.len(),
    ensures
        match r {
            None => best_alive(c@, alive@, alive@.len() as int) == -1,
            Some(b) => best_alive(c@, alive@, alive@.len() as int) == b as int,
        },
{
    let mut best: Option<usize> = None;
    let mut i: usize = 0;
    while i < alive.len()
        invariant
            i <= alive@.len() == c@.len(),
            match best {
                None => best_alive(c@, alive@, i as int) == -1,
                Some(b) => best_alive(c@, alive@, i as int) == b as int,
            },
        decreases alive@.len() - i,
    {
        if alive[i] {
            match best {
                None => {
                    best = Some(i);
                },
                Some(b) => {
                    proof {
                        lemma_best_alive(c@, alive@, i as int);
                    }
                    if c[i].confidence > c[b].confidence {
                        best = Some(i);
                    }
                },
            }
        }
        i = i + 1;
    }
    best
}

/// Greedy non-maximum suppression. Of the candidates whose confidence exceeds
/// `conf_threshold`, repeatedly keeps the most confident one still in play
/// (the lowest index among equals) and drops every other one whose
/// intersection-over-union with it exceeds `iou_threshold / SCALE`, whatever
/// its class. Returns the indices kept, in the order picked.
pub fn suppress(candidates: &[Candidate], conf_threshold: i32, iou_threshold: i32) -> (r: Vec<
    usize,
>)
    ensures
        as_ints(r@) == suppress_spec(candidates@, conf_threshold as int, iou_threshold as int),
{
    let ghost c = candidates@;
    let ghost t = iou_threshold as int;
    let n = candidates.len();
    let mut alive: Vec<bool> = Vec::new();
    let mut i: usize = 0;
    while i < n
        invariant
            n == c.len(),
            c == candidates@,
            t == iou_threshold as int,
            i <= n,
            alive@ == eligible(c, conf_threshold as int).take(i as int),
        decreases n - i,
    {
        alive.push(candidates[i].confidence > conf_threshold);
        i = i + 1;
        proof {
            assert(alive@ =~= eligible(c, conf_threshold as int).take(i as int));
        }
    }
    assert(alive@ =~= eligible(c, conf_threshold as int));
    let mut kept: Vec<usize> = Vec::new();
    let mut done = false;
    while !done
        invariant
            n == c.len() == alive@.len(),
            c == candidates@,
            t == iou_threshold as int,
            as_ints(kept@) + greedy(c, alive@, t) == suppress_spec(c, conf_threshold as int, t),
            done ==> greedy(c, alive@, t) == Seq::<int>::empty(),
        decreases num_alive(alive@) + if done {
            0int
        } else {
            1int
        },
    {
        match pick_best(candidates, &alive) {
            None => {
                done = true;
            },
            Some(b) => {
                let ghost before = alive@;
                proof {
                    lemma_best_alive(c, before, n as int);
                }
                let mut j: usize = 0;
                while j < n
                    invariant
                        n == c.len() == alive@.len() == before.len(),
                        c == candidates@,
                        t == iou_threshold as int,
                        b < n,
                        j <= n,
                        forall|k: int|
                            0 <= k < j ==> alive@[k] == survivors(c, before, b as int, t)[k],
                        forall|k: int| j <= k < n ==> alive@[k] == before[k],
                    decreases n - j,
                {
                    let keep = alive[j] && j != b && !overlaps(
                        &candidates[j].bbox,
                        &candidates[b].bbox,
                        iou_threshold,
                    );
                    alive.set(j, keep);
                    assert(keep == survivors(c, before, b as int, t)[j as int]);
                    j = j + 1;
                }
                proof {
                    assert(alive@ =~= survivors(c, before, b as int, t));
                    lemma_num_alive_decreases(before, alive@, b as int);
                    assert(greedy(c, before, t) == seq![b as int].add(greedy(c, alive@, t)));
                }
                let ghost prev = kept@;
                kept.push(b);
                proof {
                    assert(as_ints(kept@) =~= as_ints(prev).push(b as int));
                    assert(as_ints(kept@) + greedy(c, alive@, t) =~= as_ints(prev) + greedy(
                        c,
                        before,
                        t,
                    ));
                }
            },
        }
    }
    assert(as_ints(kept@) =~= as_ints(kept@) + Seq::<int>::empty());
    kept
}

} // verus!
