use yolo_vision::{
    accept, calculate_bbox, decode, get_best_class, intersection_area, is_listed, overlaps,
    suppress, union_area, BoundingBox, Candidate, CatalogError, ClassCatalog, ClassScore, Decoded,
    DetectionPipeline, CONF_THRESHOLD, NMS_THRESHOLD,
};

fn bx(x: i32, y: i32, width: i32, height: i32) -> BoundingBox {
    BoundingBox { x, y, width, height }
}

fn cand(b: BoundingBox, confidence: i32, class_id: usize) -> Candidate {
    Candidate { bbox: b, confidence, class_id }
}

fn lines(names: &[&str]) -> Vec<String> {
    names.iter().map(|s| s.to_string()).collect()
}

fn pipeline(conf: i32, iou: i32) -> DetectionPipeline {
    let catalog = ClassCatalog::from_lines(&lines(&["person", "dog", "cat"])).unwrap();
    DetectionPipeline::new(catalog, &lines(&["person", "dog"]), conf, iou).unwrap()
}

#[test]
fn decode_centre_box_in_square_frame() {
    let row = vec![500_000, 500_000, 200_000, 200_000, 900_000, 100_000, 800_000];
    let d = decode(&row, 416, 416).unwrap();
    assert_eq!(d.bbox, bx(167, 167, 83, 83));
    assert_eq!(d.objectness, 900_000);
    assert_eq!(d.best_class, Some(ClassScore { class_id: 1, score: 800_000 }));
}

#[test]
fn decode_scales_by_frame_not_input_size() {
    let row = vec![250_000, 500_000, 100_000, 300_000, 0];
    assert_eq!(calculate_bbox(&row, 640, 480), bx(128, 168, 64, 144));
    let d = decode(&row, 640, 480).unwrap();
    assert_eq!(d.best_class, None);
}

#[test]
fn decode_truncates_toward_zero() {
    // centre -0.1 of 15 px = -1.5 -> -1; width 0.3 of 15 = 4.5 -> 4; x = -1 - 2
    let row = vec![-100_000, 0, 300_000, 0, 0];
    assert_eq!(calculate_bbox(&row, 15, 15), bx(-3, 0, 4, 0));
}

#[test]
fn decode_short_row_is_dropped() {
    assert!(decode(&[1, 2, 3, 4], 100, 100).is_none());
    assert!(decode(&[], 100, 100).is_none());
}

#[test]
fn best_class_first_of_equal_scores_wins() {
    assert_eq!(get_best_class(&[3, 7, 7, 1]), Some(ClassScore { class_id: 1, score: 7 }));
    assert_eq!(get_best_class(&[-5, -2, -9]), Some(ClassScore { class_id: 1, score: -2 }));
    assert_eq!(get_best_class(&[]), None);
}

#[test]
fn gate_at_threshold_rejects() {
    let d = Decoded {
        bbox: bx(0, 0, 10, 10),
        objectness: CONF_THRESHOLD,
        best_class: Some(ClassScore { class_id: 0, score: 900_000 }),
    };
    assert_eq!(accept(&d, &[0, 1], CONF_THRESHOLD), None);
    let d2 = Decoded { objectness: 900_000, best_class: Some(ClassScore { class_id: 0, score: CONF_THRESHOLD }), ..d };
    assert_eq!(accept(&d2, &[0, 1], CONF_THRESHOLD), None);
    let d3 = Decoded { objectness: CONF_THRESHOLD + 1, best_class: Some(ClassScore { class_id: 0, score: CONF_THRESHOLD + 1 }), ..d };
    assert_eq!(accept(&d3, &[0, 1], CONF_THRESHOLD), Some(cand(bx(0, 0, 10, 10), CONF_THRESHOLD + 1, 0)));
}

#[test]
fn gate_rejects_unlisted_class_and_missing_scores() {
    let d = Decoded {
        bbox: bx(0, 0, 10, 10),
        objectness: 950_000,
        best_class: Some(ClassScore { class_id: 2, score: 950_000 }),
    };
    assert_eq!(accept(&d, &[0, 1], CONF_THRESHOLD), None);
    assert_eq!(accept(&Decoded { best_class: None, ..d }, &[0, 1, 2], 0), None);
    assert!(is_listed(&[0, 1], 1));
    assert!(!is_listed(&[0, 1], 2));
}

#[test]
fn overlap_areas_and_threshold() {
    let a = bx(0, 0, 10, 10);
    let b = bx(5, 0, 10, 10);
    assert_eq!(intersection_area(&a, &b), 50);
    assert_eq!(union_area(&a, &b), 150);
    // IOU is exactly one third
    assert!(overlaps(&a, &b, 333_333));
    assert!(!overlaps(&a, &b, 333_334));
    assert!(overlaps(&a, &a, 999_999));
    assert!(!overlaps(&a, &bx(20, 20, 5, 5), 0));
    // IOU exactly 0.4 does not exceed 0.4
    let c = bx(0, 0, 7, 10);
    let d = bx(2, 0, 7, 10);
    assert_eq!(intersection_area(&c, &d), 50);
    assert_eq!(union_area(&c, &d), 90);
    let e = bx(0, 0, 10, 4);
    let f = bx(0, 0, 10, 10);
    assert!(!overlaps(&e, &f, NMS_THRESHOLD));
    assert!(overlaps(&e, &f, NMS_THRESHOLD - 1));
}

#[test]
fn suppress_keeps_higher_of_two_overlapping() {
    let a = cand(bx(30, 30, 40, 40), 600_000, 0);
    let b = cand(bx(37, 30, 40, 40), 900_000, 0);
    assert_eq!(suppress(&[a, b], CONF_THRESHOLD, NMS_THRESHOLD), vec![1]);
}

#[test]
fn suppress_keeps_both_when_apart() {
    let a = cand(bx(0, 0, 10, 10), 600_000, 0);
    let b = cand(bx(50, 50, 10, 10), 900_000, 1);
    assert_eq!(suppress(&[a, b], CONF_THRESHOLD, NMS_THRESHOLD), vec![1, 0]);
}

#[test]
fn suppress_across_classes_and_ties_by_index() {
    let a = cand(bx(0, 0, 10, 10), 700_000, 0);
    let b = cand(bx(0, 0, 10, 10), 700_000, 1);
    let c = cand(bx(100, 0, 10, 10), 800_000, 1);
    let d = cand(bx(200, 0, 10, 10), 400_000, 1);
    assert_eq!(suppress(&[a, b, c, d], CONF_THRESHOLD, NMS_THRESHOLD), vec![2, 0]);
    assert_eq!(suppress(&[], CONF_THRESHOLD, NMS_THRESHOLD), Vec::<usize>::new());
}

#[test]
fn suppress_chain_is_greedy() {
    // b overlaps a and c; c does not overlap a. a wins, drops b, c survives.
    let a = cand(bx(0, 0, 10, 10), 900_000, 0);
    let b = cand(bx(4, 0, 10, 10), 800_000, 0);
    let c = cand(bx(8, 0, 10, 10), 700_000, 0);
    assert_eq!(suppress(&[a, b, c], CONF_THRESHOLD, NMS_THRESHOLD), vec![0, 2]);
}

#[test]
fn suppress_again_changes_nothing() {
    let cs = vec![
        cand(bx(0, 0, 10, 10), 900_000, 0),
        cand(bx(3, 0, 10, 10), 800_000, 0),
        cand(bx(8, 0, 10, 10), 850_000, 1),
        cand(bx(40, 40, 10, 10), 600_000, 1),
        cand(bx(41, 40, 10, 10), 600_000, 0),
    ];
    let first = suppress(&cs, CONF_THRESHOLD, NMS_THRESHOLD);
    let kept: Vec<Candidate> = first.iter().map(|&i| cs[i]).collect();
    let again = suppress(&kept, CONF_THRESHOLD, NMS_THRESHOLD);
    let mut sorted = again.clone();
    sorted.sort();
    assert_eq!(sorted, (0..kept.len()).collect::<Vec<usize>>());
    assert_eq!(again, (0..kept.len()).collect::<Vec<usize>>());
}

#[test]
fn catalog_trims_lines() {
    let c = ClassCatalog::from_lines(&lines(&["  person", "dog\t", " cat \r"])).unwrap();
    assert_eq!(c.len(), 3);
    assert_eq!(c.names, lines(&["person", "dog", "cat"]));
    assert_eq!(c.resolve(&"dog".to_string()), Ok(1));
}

#[test]
fn catalog_errors() {
    assert_eq!(ClassCatalog::from_lines(&Vec::new()).err(), Some(CatalogError::MalformedInput));
    let c = ClassCatalog::from_lines(&lines(&["person", "dog"])).unwrap();
    assert_eq!(c.resolve(&"Dog".to_string()), Err(CatalogError::ClassNotFound));
    assert_eq!(c.resolve(&"horse".to_string()), Err(CatalogError::ClassNotFound));
    let r = DetectionPipeline::new(c, &lines(&["person", "horse"]), CONF_THRESHOLD, NMS_THRESHOLD);
    assert_eq!(r.err(), Some(CatalogError::ClassNotFound));
}

#[test]
fn catalog_resolves_first_duplicate() {
    let c = ClassCatalog::from_lines(&lines(&["a", "b", "a"])).unwrap();
    assert_eq!(c.resolve(&"a".to_string()), Ok(0));
}

#[test]
fn pipeline_keeps_one_of_two_overlapping_persons() {
    let p = pipeline(CONF_THRESHOLD, NMS_THRESHOLD);
    assert_eq!(p.whitelist, vec![0, 1]);
    // two 40x40 boxes 7 px apart in a 100x100 frame: IOU 1320 / 1880 = 0.70
    let rows = vec![
        vec![500_000, 500_000, 400_000, 400_000, 900_000, 800_000, 100_000, 50_000],
        vec![570_000, 500_000, 400_000, 400_000, 600_000, 700_000, 100_000, 50_000],
    ];
    let out = p.process_outputs(&vec![rows], 100, 100);
    assert_eq!(out.len(), 1);
    assert_eq!(out[0].label, "person");
    assert_eq!(out[0].confidence, 900_000);
    assert_eq!(out[0].class_id, 0);
    assert_eq!(out[0].bbox, bx(30, 30, 40, 40));
}

#[test]
fn pipeline_never_reports_unlisted_class() {
    let cat_row = vec![500_000, 500_000, 400_000, 400_000, 950_000, 10_000, 20_000, 950_000];
    for conf in [-1_000_000, 0, 100_000, CONF_THRESHOLD, 900_000] {
        let p = pipeline(conf, NMS_THRESHOLD);
        let out = p.process_outputs(&vec![vec![cat_row.clone()]], 416, 416);
        assert!(out.iter().all(|d| d.label != "cat" && d.class_id != 2));
        assert!(out.is_empty());
    }
}

#[test]
fn pipeline_empty_input() {
    let p = pipeline(CONF_THRESHOLD, NMS_THRESHOLD);
    assert!(p.process_outputs(&Vec::new(), 416, 416).is_empty());
    assert!(p.process_outputs(&vec![Vec::new(), Vec::new()], 416, 416).is_empty());
}

#[test]
fn pipeline_across_tensors_and_bad_rows() {
    let p = pipeline(CONF_THRESHOLD, NMS_THRESHOLD);
    let t1 = vec![
        vec![100_000, 100_000, 100_000, 100_000, 800_000, 100_000, 900_000, 0],
        vec![1, 2, 3],
        vec![500_000, 500_000, 100_000, 100_000, 400_000, 900_000, 0, 0],
    ];
    let t2 = vec![vec![800_000, 800_000, 100_000, 100_000, 950_000, 600_000, 0, 0]];
    let out = p.process_outputs(&vec![t1, t2], 200, 100);
    assert_eq!(out.len(), 2);
    assert_eq!(out[0].label, "person");
    assert_eq!(out[0].confidence, 950_000);
    assert_eq!(out[0].bbox, bx(150, 75, 20, 10));
    assert_eq!(out[1].label, "dog");
    assert_eq!(out[1].bbox, bx(10, 5, 20, 10));
}
