use vstd::prelude::*;

use crate::decode::{best_class_index, decode, decode_spec, ROW_HEADER};
use crate::filter::{accept, accept_spec, Candidate};
use crate::geometry::BoundingBox;
use crate::nms::{as_ints, suppress, suppress_spec};
use crate::registry::{is_first_match, CatalogError, ClassCatalog};

verus! {

/// A kept box, labelled with its class name.
pub struct Detection {
    pub label: String,
    pub confidence: i32,
    pub bbox: BoundingBox,
    pub class_id: usize,
}

/// The per-frame post-processing stage of a detector: the class catalog, the
/// ids of the classes to report, and the two thresholds.
pub struct DetectionPipeline {
    pub catalog: ClassCatalog,
    pub whitelist: Vec<usize>,
    pub conf_threshold: i32,
    pub iou_threshold: i32,
}

/// The candidate a single row yields, if any.
pub open spec fn row_candidate(
    row: Seq<i32>,
    frame_width: u32,
    frame_height: u32,
    whitelist: Seq<usize>,
    conf_threshold: int,
) -> Option<Candidate> {
    match decode_spec(row, frame_width, frame_height) {
        Some(d) => accept_spec(d, whitelist, conf_threshold),
        None => None,
    }
}

/// The candidates of one tensor, in row order.
pub open spec fn tensor_candidates(
    rows: Seq<Seq<i32>>,
    frame_width: u32,
    frame_height: u32,
    whitelist: Seq<usize>,
    conf_threshold: int,
) -> Seq<Candidate>
    decreases rows.len(),
{
    if rows.len() == 0 {
        Seq::empty()
    } else {
        let prev = tensor_candidates(
            rows.drop_last(),
            frame_width,
            frame_height,
            whitelist,
            conf_threshold,
        );
        match row_candidate(rows.last(), frame_width, frame_height, whitelist, conf_threshold) {
            Some(c) => prev.push(c),
            None => prev,
        }
    }
}

/// The candidates of all tensors of a frame, tensor after tensor.
pub open spec fn frame_candidates(
    tensors: Seq<Seq<Seq<i32>>>,
    frame_width: u32,
    frame_height: u32,
    whitelist: Seq<usize>,
    conf_threshold: int,
) -> Seq<Candidate>
    decreases tensors.len(),
{
    if tensors.len() == 0 {
        Seq::empty()
    } else {
        frame_candidates(tensors.drop_last(), frame_width, frame_height, whitelist, conf_threshold)
            + tensor_candidates(
            tensors.last(),
            frame_width,
            frame_height,
            whitelist,
            conf_threshold,
        )
    }
}

/// `d` reports candidate `c`, labelled from `catalog`.
pub open spec fn reports(d: Detection, c: Candidate, catalog: Seq<Seq<char>>) -> bool {
    &&& d.class_id == c.class_id
    &&& d.confidence == c.confidence
    &&& d.bbox == c.bbox
    &&& d.label@ == catalog[c.class_id as int]
}

/// A row whose objectness or best class score is not strictly above the
/// threshold, or whose best class is not listed, yields no candidate.
pub proof fn lemma_gates_are_strict(
    row: Seq<i32>,
    frame_width: u32,
    frame_height: u32,
    whitelist: Seq<usize>,
    conf_threshold: int,
)
    requires
        row.len() >= ROW_HEADER,
    ensures
        ({
            let scores = row.subrange(ROW_HEADER as int, row.len() as int);
            let best = best_class_index(scores);
            row[4] <= conf_threshold || scores.len() == 0 || scores[best] <= conf_threshold
                || !whitelist.contains(best as usize)
        }) ==> row_candidate(row, frame_width, frame_height, whitelist, conf_threshold) is None,
{
}

/// Every candidate of a tensor is of a listed class.
proof fn lemma_tensor_whitelisted(
    rows: Seq<Seq<i32>>,
    frame_width: u32,
    frame_height: u32,
    whitelist: Seq<usize>,
    conf_threshold: int,
)
    ensures
        forall|i: int|
            0 <= i < tensor_candidates(
                rows,
                frame_width,
                frame_height,
                whitelist,
                conf_threshold,
            ).len() ==> whitelist.contains(
                #[trigger] tensor_candidates(
                    rows,
                    frame_width,
                    frame_height,
                    whitelist,
                    conf_threshold,
                )[i].class_id,
            ),
    decreases rows.len(),
{
    if rows.len() > 0 {
        lemma_tensor_whitelisted(
            rows.drop_last(),
            frame_width,
            frame_height,
            whitelist,
            conf_threshold,
        );
        let prev = tensor_candidates(
            rows.drop_last(),
            frame_width,
            frame_height,
            whitelist,
            conf_threshold,
        );
        let all = tensor_candidates(rows, frame_width, frame_height, whitelist, conf_threshold);
        assert forall|i: int| 0 <= i < all.len() implies whitelist.contains(all[i].class_id) by {
            if i < prev.len() {
                assert(all[i] == prev[i]);
            }
        }
    }
}

/// Every candidate of a frame, whatever the threshold, is of a listed class:
/// nothing else reaches suppression.
pub proof fn lemma_candidates_whitelisted(
    tensors: Seq<Seq<Seq<i32>>>,
    frame_width: u32,
    frame_height: u32,
    whitelist: Seq<usize>,
    conf_threshold: int,
)
    ensures
        forall|i: int|
            0 <= i < frame_candidates(
                tensors,
                frame_width,
                frame_height,
                whitelist,
                conf_threshold,
            ).len() ==> whitelist.contains(
                #[trigger] frame_candidates(
                    tensors,
                    frame_width,
                    frame_height,
                    whitelist,
                    conf_threshold,
                )[i].class_id,
            ),
    decreases tensors.len(),
{
    if tensors.len() > 0 {
        let prev = frame_candidates(
            tensors.drop_last(),
            frame_width,
            frame_height,
            whitelist,
            conf_threshold,
        );
        let last = tensor_candidates(
            tensors.last(),
            frame_width,
            frame_height,
            whitelist,
            conf_threshold,
        );
        lemma_candidates_whitelisted(
            tensors.drop_last(),
            frame_width,
            frame_height,
            whitelist,
            conf_threshold,
        );
        lemma_tensor_whitelisted(
            tensors.last(),
            frame_width,
            frame_height,
            whitelist,
            conf_threshold,
        );
        let all = frame_candidates(tensors, frame_width, frame_height, whitelist, conf_threshold);
        assert(all == prev + last);
        assert forall|i: int| 0 <= i < all.len() implies whitelist.contains(all[i].class_id) by {
            if i >= prev.len() {
                assert(all[i] == last[i - prev.len()]);
            } else {
                assert(all[i] == prev[i]);
            }
        }
    }
}

/// A frame without tensors has no candidates.
pub proof fn lemma_empty_frame(
    frame_width: u32,
    frame_height: u32,
    whitelist: Seq<usize>,
    conf_threshold: int,
    iou_threshold: int,
)
    ensures
        suppress_spec(
            frame_candidates(Seq::empty(), frame_width, frame_height, whitelist, conf_threshold),
            conf_threshold,
            iou_threshold,
        ).len() == 0,
{
    let c = frame_candidates(Seq::empty(), frame_width, frame_height, whitelist, conf_threshold);
    assert(c.len() == 0);
    let a = crate::nms::eligible(c, conf_threshold);
    assert(crate::nms::best_alive(c, a, 0) == -1);
}

impl DetectionPipeline {
    /// Every listed class id names an entry of the catalog.
    pub open spec fn wf(&self) -> bool {
        forall|i: int|
            0 <= i < self.whitelist@.len() ==> #[trigger] self.whitelist@[i]
                < self.catalog@.len()
    }

    /// Sets up the stage for the classes named in `wanted`, each resolved in
    /// `catalog`; fails when one of them is not there.
    pub fn new(catalog: ClassCatalog, wanted: &Vec<String>, conf_threshold: i32, iou_threshold: i32) -> (r:
        Result<DetectionPipeline, CatalogError>)
        ensures
            r is Err <==> exists|k: int| 0 <= k < wanted@.len() && !catalog.lists(#[trigger] wanted@[k]@),
            r matches Err(e) ==> e == CatalogError::ClassNotFound,
            r matches Ok(p) ==> {
                &&& p.wf()
                &&& p.catalog@ == catalog@
                &&& p.conf_threshold == conf_threshold
                &&& p.iou_threshold == iou_threshold
                &&& p.whitelist@.len() == wanted@.len()
                &&& forall|k: int|
                    0 <= k < wanted@.len() ==> is_first_match(
                        catalog@,
                        wanted@[k]@,
                        #[trigger] p.whitelist@[k] as int,
                    )
            },
    {
        let mut whitelist: Vec<usize> = Vec::new();
        let mut k: usize = 0;
        while k < wanted.len()
            invariant
                k <= wanted@.len(),
                whitelist@.len() == k,
                forall|j: int| 0 <= j < k ==> catalog.lists(#[trigger] wanted@[j]@),
                forall|j: int|
                    0 <= j < k ==> is_first_match(
                        catalog@,
                        wanted@[j]@,
                        #[trigger] whitelist@[j] as int,
                    ),
            decreases wanted@.len() - k,
        {
            match catalog.resolve(&wanted[k]) {
                Ok(id) => {
                    whitelist.push(id);
                },
                Err(e) => {
                    return Err(e);
                },
            }
            k = k + 1;
        }
        let p = DetectionPipeline { catalog, whitelist, conf_threshold, iou_threshold };
        assert forall|i: int| 0 <= i < p.whitelist@.len() implies #[trigger] p.whitelist@[i]
            < p.catalog@.len() by {
            assert(is_first_match(catalog@, wanted@[i]@, p.whitelist@[i] as int));
        }
        Ok(p)
    }

    /// Decodes and gates every row of every tensor of a frame of the given
    /// size, suppresses overlaps among all candidates together, and labels
    /// what is kept, in the order suppression kept it.
    pub fn process_outputs(&self, outputs: &Vec<Vec<Vec<i32>>>, frame_width: u32, frame_height: u32) -> (r: Vec<Detection>)
        requires
            self.wf(),
        ensures
            ({
                let cands = frame_candidates(
                    outputs.deep_view(),
                    frame_width,
                    frame_height,
                    self.whitelist@,
                    self.conf_threshold as int,
                );
                let kept = suppress_spec(cands, self.conf_threshold as int, self.iou_threshold as int);
                &&& r@.len() == kept.len()
                &&& forall|i: int| 0 <= i < r@.len() ==> reports(#[trigger] r@[i], cands[kept[i]], self.catalog@)
            }),
            forall|i: int| 0 <= i < r@.len() ==> self.whitelist@.contains(#[trigger] r@[i].class_id),
            outputs@.len() == 0 ==> r@.len() == 0,
    {
        let ghost ts = outputs.deep_view();
        let ghost wl = self.whitelist@;
        let ghost ct = self.conf_threshold as int;
        let mut cands: Vec<Candidate> = Vec::new();
        let mut t: usize = 0;
        while t < outputs.len()
            invariant
                t <= outputs@.len(),
                ts == outputs.deep_view(),
                wl == self.whitelist@,
                ct == self.conf_threshold as int,
                cands@ == frame_candidates(ts.take(t as int), frame_width, frame_height, wl, ct),
            decreases outputs@.len() - t,
        {
            let tensor = &outputs[t];
            let ghost before = cands@;
            let ghost rows = ts[t as int];
            assert(rows == tensor.deep_view());
            let mut r: usize = 0;
            while r < tensor.len()
                invariant
                    t < outputs@.len(),
                    r <= tensor@.len(),
                    rows == tensor.deep_view(),
                    wl == self.whitelist@,
                    ct == self.conf_threshold as int,
                    cands@ == before + tensor_candidates(rows.take(r as int), frame_width, frame_height, wl, ct),
                decreases tensor@.len() - r,
            {
                let row = tensor[r].as_slice();
                assert(row@ == rows[r as int]);
                let ghost prev = cands@;
                match decode(row, frame_width, frame_height) {
                    Some(d) => {
                        match accept(&d, self.whitelist.as_slice(), self.conf_threshold) {
                            Some(c) => {
                                cands.push(c);
                            },
                            None => {},
                        }
                    },
                    None => {},
                }
                proof {
                    let rr = rows.take(r as int + 1);
                    assert(rr.drop_last() =~= rows.take(r as int));
                    assert(rr.last() == rows[r as int]);
                    let tc = tensor_candidates(rows.take(r as int), frame_width, frame_height, wl, ct);
                    match row_candidate(rows[r as int], frame_width, frame_height, wl, ct) {
                        Some(c) => {
                            assert(cands@ =~= before + tc.push(c));
                        },
                        None => {
                            assert(cands@ =~= before + tc);
                        },
                    }
                }
                r = r + 1;
            }
            proof {
                let tt = ts.take(t as int + 1);
                assert(tt.drop_last() =~= ts.take(t as int));
                assert(tt.last() == rows);
                assert(rows.take(rows.len() as int) =~= rows);
            }
            t = t + 1;
        }
        proof {
            assert(ts.take(ts.len() as int) =~= ts);
        }
        let kept = suppress(cands.as_slice(), self.conf_threshold, self.iou_threshold);
        let ghost all = cands@;
        let ghost k = suppress_spec(all, ct, self.iou_threshold as int);
        proof {
            crate::nms::lemma_suppress_kept_in_range(all, ct, self.iou_threshold as int);
            lemma_candidates_whitelisted(ts, frame_width, frame_height, wl, ct);
            if outputs@.len() == 0 {
                assert(ts =~= Seq::<Seq<Seq<i32>>>::empty());
                lemma_empty_frame(frame_width, frame_height, wl, ct, self.iou_threshold as int);
            }
        }
        let mut out: Vec<Detection> = Vec::new();
        let mut i: usize = 0;
        while i < kept.len()
            invariant
                i <= kept@.len() == k.len(),
                as_ints(kept@) == k,
                all == cands@,
                forall|j: int| 0 <= j < k.len() ==> 0 <= #[trigger] k[j] < all.len(),
                forall|j: int| 0 <= j < all.len() ==> self.whitelist@.contains(#[trigger] all[j].class_id),
                self.wf(),
                out@.len() == i,
                forall|j: int| 0 <= j < i ==> reports(#[trigger] out@[j], all[k[j]], self.catalog@),
            decreases kept@.len() - i,
        {
            let idx = kept[i];
            assert(k[i as int] == idx as int);
            let c = cands[idx];
            let ghost w = choose|w: int| 0 <= w < self.whitelist@.len() && self.whitelist@[w] == c.class_id;
            assert(self.whitelist@[w] < self.catalog@.len());
            let label = self.catalog.names[c.class_id].clone();
            out.push(Detection { label, confidence: c.confidence, bbox: c.bbox, class_id: c.class_id });
            i = i + 1;
        }
        out
    }
}

} // verus!
