use vstd::prelude::*;

use vstd::slice::slice_subrange;

use crate::config::SCALE;
use crate::geometry::BoundingBox;

verus! {

/// The winning class of a row: its index among the class scores, and the score.
#[derive(Clone, Copy, Debug, PartialEq, Eq, Structural)]
pub struct ClassScore {
    pub class_id: usize,
    pub score: i32,
}

/// One grid row, decoded: its box in frame pixels, its objectness, and its
/// best class (absent when the row carries no class scores).
#[derive(Clone, Copy, Debug, PartialEq, Eq, Structural)]
pub struct Decoded {
    pub bbox: BoundingBox,
    pub objectness: i32,
    pub best_class: Option<ClassScore>,
}

/// Number of leading entries of a row that are not class scores:
/// centre x, centre y, width, height, objectness.
pub const ROW_HEADER: usize = 5;

/// `i` holds a maximum of `scores`, and no earlier position does.
pub open spec fn is_best_class(scores: Seq<i32>, i: int) -> bool {
    &&& 0 <= i < scores.len()
    &&& forall|j: int| 0 <= j < scores.len() ==> scores[j] <= scores[i]
    &&& forall|j: int| 0 <= j < i ==> scores[j] < scores[i]
}

/// The first position of a maximum of `scores` (meaningful when not empty).
pub open spec fn best_class_index(scores: Seq<i32>) -> int {
    choose|i: int| is_best_class(scores, i)
}

/// At most one position is the first maximum.
pub proof fn lemma_best_class_unique(scores: Seq<i32>, i: int, k: int)
    requires
        is_best_class(scores, i),
        is_best_class(scores, k),
    ensures
        i == k,
{
    if i < k {
        assert(scores[i] < scores[k]);
        assert(scores[k] <= scores[i]);
    } else if k < i {
        assert(scores[k] < scores[i]);
        assert(scores[i] <= scores[k]);
    }
}

/// Division that truncates toward zero, as a cast from a fraction does.
pub open spec fn trunc_div(n: int, d: int) -> int {
    if n >= 0 {
        n / d
    } else {
        -((-n) / d)
    }
}

/// `v` held to the range of `i32`.
pub open spec fn saturate(v: int) -> int {
    if v > i32::MAX {
        i32::MAX as int
    } else if v < i32::MIN {
        i32::MIN as int
    } else {
        v
    }
}

/// A fixed-point fraction of a frame dimension, in whole pixels.
pub open spec fn to_pixels(frac: i32, dim: u32) -> int {
    saturate(trunc_div(frac * dim, SCALE as int))
}

/// The pixel rectangle of a row whose first four entries give centre and size
/// as fractions of the frame: the top-left corner is the centre less half the
/// size, every step truncating toward zero.
pub open spec fn bbox_of(row: Seq<i32>, frame_width: u32, frame_height: u32) -> BoundingBox {
    let cx = to_pixels(row[0], frame_width);
    let cy = to_pixels(row[1], frame_height);
    let w = to_pixels(row[2], frame_width);
    let h = to_pixels(row[3], frame_height);
    BoundingBox {
        x: saturate(cx - trunc_div(w, 2)) as i32,
        y: saturate(cy - trunc_div(h, 2)) as i32,
        width: w as i32,
        height: h as i32,
    }
}

/// What a row decodes to; `None` for a row too short to hold a box and an
/// objectness.
pub open spec fn decode_spec(row: Seq<i32>, frame_width: u32, frame_height: u32) -> Option<Decoded> {
    if row.len() < ROW_HEADER {
        None
    } else {
        let scores = row.subrange(ROW_HEADER as int, row.len() as int);
        Some(
            Decoded {
                bbox: bbox_of(row, frame_width, frame_height),
                objectness: row[4],
                best_class: if scores.len() == 0 {
                    None
                } else {
                    let i = best_class_index(scores);
                    Some(ClassScore { class_id: i as usize, score: scores[i] })
                },
            },
        )
    }
}

/// The highest class score and its index; on equal scores the lowest index
/// wins. `None` when there are no scores.
pub fn get_best_class(scores: &[i32]) -> (r: Option<ClassScore>)
    ensures
        r is None <==> scores@.len() == 0,
        r matches Some(c) ==> is_best_class(scores@, c.class_id as int) && c.score
            == scores@[c.class_id as int],
{
    if scores.len() == 0 {
        return None;
    }
    let mut id: usize = 0;
    let mut max_score: i32 = scores[0];
    let mut i: usize = 1;
    while i < scores.len()
        invariant
            1 <= i <= scores@.len(),
            id < i,
            max_score == scores@[id as int],
            forall|j: int| 0 <= j < i ==> scores@[j] <= max_score,
            forall|j: int| 0 <= j < id ==> scores@[j] < max_score,
        decreases scores@.len() - i,
    {
        if scores[i] > max_score {
            max_score = scores[i];
            id = i;
        }
        i = i + 1;
    }
    Some(ClassScore { class_id: id, score: max_score })
}

fn trunc_div_i128(n: i128, d: i128) -> (r: i128)
    requires
        d > 0,
        -0x1000_0000_0000_0000_0000 <= n <= 0x1000_0000_0000_0000_0000,
    ensures
        r == trunc_div(n as int, d as int),
{
    if n >= 0 {
        n / d
    } else {
        -((-n) / d)
    }
}

fn saturate_i128(v: i128) -> (r: i32)
    ensures
        r == saturate(v as int),
{
    if v > i32::MAX as i128 {
        i32::MAX
    } else if v < i32::MIN as i128 {
        i32::MIN
    } else {
        v as i32
    }
}

fn pixels(frac: i32, dim: u32) -> (r: i32)
    ensures
        r == to_pixels(frac, dim),
{
    let f = frac as i128;
    let d = dim as i128;
    assert(-0x1_0000_0000_0000_0000 <= f * d <= 0x1_0000_0000_0000_0000) by (nonlinear_arith)
        requires
            -0x8000_0000 <= f < 0x8000_0000,
            0 <= d < 0x1_0000_0000,
    ;
    let p = f * d;
    saturate_i128(trunc_div_i128(p, SCALE as i128))
}

/// The pixel rectangle of a row of at least four entries, in a frame of the
/// given size.
pub fn calculate_bbox(row: &[i32], frame_width: u32, frame_height: u32) -> (r: BoundingBox)
    requires
        row@.len() >= 4,
    ensures
        r == bbox_of(row@, frame_width, frame_height),
{
    let cx = pixels(row[0], frame_width);
    let cy = pixels(row[1], frame_height);
    let w = pixels(row[2], frame_width);
    let h = pixels(row[3], frame_height);
    let x = saturate_i128(cx as i128 - trunc_div_i128(w as i128, 2));
    let y = saturate_i128(cy as i128 - trunc_div_i128(h as i128, 2));
    BoundingBox { x, y, width: w, height: h }
}

/// Decodes one grid row: `[cx, cy, w, h, objectness, score_0, ..]`, fractions
/// in fixed point. A row too short to hold a box and an objectness gives
/// `None`.
pub fn decode(row: &[i32], frame_width: u32, frame_height: u32) -> (r: Option<Decoded>)
    ensures
        r == decode_spec(row@, frame_width, frame_height),
{
    if row.len() < ROW_HEADER {
        return None;
    }
    let bbox = calculate_bbox(row, frame_width, frame_height);
    let scores = slice_subrange(row, ROW_HEADER, row.len());
    let best = get_best_class(scores);
    proof {
        assert(scores@ == row@.subrange(ROW_HEADER as int, row@.len() as int));
        if let Some(c) = best {
            lemma_best_class_unique(scores@, c.class_id as int, best_class_index(scores@));
        }
    }
    Some(Decoded { bbox, objectness: row[4], best_class: best })
}

} // verus!
