use shape_offset::assemble::assemble;
use shape_offset::dissect::dissection_points;
use shape_offset::dissect::is_slice_valid;
use shape_offset::dissect::probe_targets;
use shape_offset::dissect::slice_candidates;
use shape_offset::dissect::sort_out;
use shape_offset::dissect::DissectionPoint;
use shape_offset::dissect::ProbedSlice;
use shape_offset::dissect::SliceCandidate;
use shape_offset::geometry::clamp_to_grid;
use shape_offset::geometry::Aabb;
use shape_offset::geometry::Point;
use shape_offset::geometry::COORD_MAX;
use shape_offset::geometry::GRID_SCALE;
use shape_offset::geometry::OFFSET_TOL;
use shape_offset::geometry::POS_EQUAL_EPS;
use shape_offset::geometry::SLICE_JOIN_EPS;
use shape_offset::intersects::collect_slice_points;
use shape_offset::intersects::BasicIntersect;
use shape_offset::intersects::OverlappingIntersect;
use shape_offset::intersects::PairIntersects;
use shape_offset::offsets::create_offset_loops;
use shape_offset::offsets::OffsetLoops;
use shape_offset::pairs::candidate_pairs;
use shape_offset::shape::AreaSign;
use shape_offset::shape::ClosedPlineSet;
use shape_offset::shape::IndexedPolyline;
use shape_offset::shape::Polyline;
use shape_offset::shape::Shape;
use shape_offset::shape::ShapeIndex;
use shape_offset::shape::ShapeSource;
use shape_offset::spatial::build_index;
use shape_offset::spatial::BoxIndex;
use shape_offset::stitch::open_candidates;
use shape_offset::stitch::pick_next;
use shape_offset::stitch::stitch_slices;
use shape_offset::stitch::DissectedSlice;

const UNIT: i64 = GRID_SCALE;

fn pt(x: i64, y: i64) -> Point {
    Point { x, y }
}

fn bx(min_x: i64, min_y: i64, max_x: i64, max_y: i64) -> Aabb {
    Aabb { min_x, min_y, max_x, max_y }
}

fn segment_boxes(vertices: &Vec<Point>) -> Vec<Aabb> {
    let mut boxes = Vec::new();
    for k in 0..vertices.len() {
        let a = vertices[k];
        let b = vertices[(k + 1) % vertices.len()];
        boxes.push(bx(a.x.min(b.x), a.y.min(b.y), a.x.max(b.x), a.y.max(b.y)));
    }
    boxes
}

fn rect(min_x: i64, min_y: i64, max_x: i64, max_y: i64, area: AreaSign) -> Polyline {
    let ccw = vec![pt(min_x, min_y), pt(max_x, min_y), pt(max_x, max_y), pt(min_x, max_y)];
    let vertices = match area {
        AreaSign::Negative => ccw.into_iter().rev().collect(),
        _ => ccw,
    };
    Polyline { key: 0, vertices, is_closed: true, area }
}

fn indexed(polyline: Polyline) -> IndexedPolyline {
    let boxes = segment_boxes(&polyline.vertices);
    IndexedPolyline::new(polyline, &boxes).unwrap()
}

fn indexed_rect(min_x: i64, min_y: i64, max_x: i64, max_y: i64, area: AreaSign) -> IndexedPolyline {
    indexed(rect(min_x, min_y, max_x, max_y, area))
}

fn cleared(start: Point, end: Point, probes: Vec<bool>) -> Option<ProbedSlice> {
    Some(ProbedSlice { key: 0, start_point: start, end_point: end, probes })
}

fn whole_outcome(offsets: &OffsetLoops, i: usize, probes: Vec<bool>) -> Vec<Option<ProbedSlice>> {
    let first = offsets.get_loop(i).indexed_pline.polyline.vertices[0];
    vec![cleared(first, first, probes)]
}

fn slice(source_idx: usize, start: Point, end: Point) -> DissectedSlice {
    DissectedSlice { source_idx, key: 0, start_point: start, end_point: end }
}

#[test]
fn tolerances_in_grid_units() {
    assert_eq!(GRID_SCALE, 1_000_000_000);
    assert_eq!(POS_EQUAL_EPS, 10_000);
    assert_eq!(OFFSET_TOL, 100_000);
    assert_eq!(SLICE_JOIN_EPS, 100_000);
    assert_eq!(COORD_MAX, (1i64 << 62) - 1);
}

#[test]
fn distance_is_squared_sum() {
    assert_eq!(pt(3, 4).dist_squared_to(pt(0, 0)), 25);
    assert_eq!(pt(-2, 7).dist_squared_to(pt(1, 3)), 25);
    assert_eq!(pt(5, 5).dist_squared_to(pt(5, 5)), 0);
    let far = pt(COORD_MAX, COORD_MAX).dist_squared_to(pt(-COORD_MAX, -COORD_MAX));
    let side = 2 * (COORD_MAX as i128);
    assert_eq!(far, 2 * side * side);
}

#[test]
fn point_range_edges() {
    assert!(pt(COORD_MAX, -COORD_MAX).is_in_range());
    assert!(!pt(COORD_MAX + 1, 0).is_in_range());
    assert!(!pt(0, -COORD_MAX - 1).is_in_range());
}

#[test]
fn clamp_keeps_grid_values_and_cuts_others() {
    assert_eq!(clamp_to_grid(17), 17);
    assert_eq!(clamp_to_grid(COORD_MAX as i128 + 5), COORD_MAX);
    assert_eq!(clamp_to_grid(-(COORD_MAX as i128) - 5), -COORD_MAX);
}

#[test]
fn box_overlap_counts_touching_edges() {
    let a = bx(0, 0, 2, 2);
    assert!(a.intersects(&bx(1, 1, 3, 3)));
    assert!(a.intersects(&bx(2, 2, 3, 3)));
    assert!(!a.intersects(&bx(3, 0, 4, 2)));
    assert!(!a.intersects(&bx(0, 3, 2, 4)));
    assert!(bx(-1, -1, 0, 0).intersects(&a));
}

#[test]
fn box_wf_needs_ordered_corners_on_grid() {
    assert!(bx(0, 0, 0, 0).is_wf());
    assert!(!bx(1, 0, 0, 0).is_wf());
    assert!(!bx(0, 1, 0, 0).is_wf());
    assert!(!bx(0, 0, COORD_MAX + 1, 0).is_wf());
}

#[test]
fn square_around_point() {
    assert_eq!(Aabb::around(pt(10, -10), 3), bx(7, -13, 13, -7));
    assert_eq!(
        Aabb::around(pt(COORD_MAX, -COORD_MAX), 100),
        bx(COORD_MAX - 100, -COORD_MAX, COORD_MAX, -COORD_MAX + 100)
    );
    assert_eq!(
        Aabb::around(pt(i64::MAX, i64::MIN), 1),
        bx(COORD_MAX, -COORD_MAX, COORD_MAX, -COORD_MAX)
    );
}

#[test]
fn segment_counts() {
    let mut p = rect(0, 0, 4, 4, AreaSign::Positive);
    assert_eq!(p.segment_count(), 4);
    p.is_closed = false;
    assert_eq!(p.segment_count(), 3);
    let one = Polyline { key: 0, vertices: vec![pt(0, 0)], is_closed: true, area: AreaSign::Zero };
    assert_eq!(one.segment_count(), 0);
    let two = Polyline { key: 0, vertices: vec![pt(0, 0), pt(1, 0)], is_closed: true, area: AreaSign::Zero };
    assert_eq!(two.segment_count(), 2);
}

#[test]
fn indexed_polyline_needs_two_vertices() {
    let one = Polyline { key: 0, vertices: vec![pt(0, 0)], is_closed: true, area: AreaSign::Zero };
    assert!(IndexedPolyline::new(one, &vec![bx(0, 0, 0, 0)]).is_none());
    let none = Polyline { key: 0, vertices: vec![], is_closed: true, area: AreaSign::Zero };
    assert!(IndexedPolyline::new(none, &vec![]).is_none());
}

#[test]
fn indexed_polyline_needs_a_box_for_each_segment() {
    let p = rect(0, 0, 4, 4, AreaSign::Positive);
    let mut boxes = segment_boxes(&p.vertices);
    boxes.pop();
    assert!(IndexedPolyline::new(p, &boxes).is_none());
    let q = rect(0, 0, 4, 4, AreaSign::Positive);
    let mut bad = segment_boxes(&q.vertices);
    bad[1] = bx(5, 0, 4, 4);
    assert!(IndexedPolyline::new(q, &bad).is_none());
    let off = rect(0, 0, COORD_MAX + 1, 4, AreaSign::Positive);
    let boxes = vec![bx(0, 0, 1, 1), bx(0, 0, 1, 1), bx(0, 0, 1, 1), bx(0, 0, 1, 1)];
    assert!(IndexedPolyline::new(off, &boxes).is_none());
}

#[test]
fn indexed_polyline_bounds_hold_every_segment() {
    let p = indexed_rect(-3, -2, 7, 5, AreaSign::Positive);
    assert_eq!(p.bounds(), bx(-3, -2, 7, 5));
    let tri = Polyline {
        key: 0,
        vertices: vec![pt(0, 0), pt(10, 1), pt(4, 9)],
        is_closed: true,
        area: AreaSign::Positive,
    };
    assert_eq!(indexed(tri).bounds(), bx(0, 0, 10, 9));
}

#[test]
fn clone_is_deep() {
    let p = indexed_rect(-3, -2, 7, 5, AreaSign::Negative);
    let mut q = p.clone();
    assert_eq!(q.bounds(), bx(-3, -2, 7, 5));
    assert_eq!(q.polyline.vertices, p.polyline.vertices);
    assert_eq!(q.polyline.area, AreaSign::Negative);
    assert!(q.polyline.is_closed);
    q.polyline.vertices[0] = pt(100, 100);
    assert_eq!(p.polyline.vertices[0], pt(-3, 5));
}

#[test]
fn closed_pline_set_holds_both_kinds() {
    let set = ClosedPlineSet {
        ccw_loops: vec![rect(0, 0, 1, 1, AreaSign::Positive)],
        cw_loops: vec![rect(0, 0, 1, 1, AreaSign::Negative), rect(2, 2, 3, 3, AreaSign::Negative)],
    };
    assert_eq!(set.ccw_loops.len(), 1);
    assert_eq!(set.cw_loops.len(), 2);
}

#[test]
fn shape_source_orders_ccw_before_cw() {
    let shape = Shape::from_loops(
        vec![indexed_rect(0, 0, 10, 10, AreaSign::Positive), indexed_rect(20, 0, 30, 10, AreaSign::Positive)],
        vec![indexed_rect(4, 4, 6, 6, AreaSign::Negative)],
    );
    assert_eq!(shape.ccw_loop_count(), 2);
    assert_eq!(shape.cw_loop_count(), 1);
    assert_eq!(shape.get_loop(0).bounds(), bx(0, 0, 10, 10));
    assert_eq!(shape.get_loop(1).bounds(), bx(20, 0, 30, 10));
    assert_eq!(shape.get_loop(2).bounds(), bx(4, 4, 6, 6));
}

#[test]
fn shape_index_by_position() {
    let indexes: Vec<BoxIndex> = vec![build_index(&vec![bx(0, 0, 1, 1)]), build_index(&vec![])];
    assert!(indexes.get_loop_index(0).is_some());
    assert!(indexes.get_loop_index(1).is_some());
    assert!(indexes.get_loop_index(2).is_none());
}

#[test]
fn narrow_collapse_of_ccw_loop_is_dropped() {
    let raw = vec![vec![
        indexed_rect(0, 0, 4, 4, AreaSign::Negative),
        indexed_rect(10, 0, 14, 4, AreaSign::Positive),
        indexed_rect(20, 0, 24, 4, AreaSign::Zero),
    ]];
    let offsets = create_offset_loops(&raw, 1).unwrap();
    assert_eq!(offsets.len(), 1);
    assert_eq!(offsets.ccw_count, 1);
    assert_eq!(offsets.get_loop(0).parent_loop_idx, 0);
    assert_eq!(offsets.get_loop(0).indexed_pline.bounds(), bx(10, 0, 14, 4));
}

#[test]
fn hole_offsets_split_by_orientation() {
    let raw = vec![
        vec![indexed_rect(0, 0, 100, 100, AreaSign::Positive)],
        vec![
            indexed_rect(10, 10, 20, 20, AreaSign::Negative),
            indexed_rect(12, 12, 14, 14, AreaSign::Positive),
        ],
        vec![indexed_rect(50, 50, 60, 60, AreaSign::Negative), indexed_rect(0, 0, 1, 1, AreaSign::Zero)],
    ];
    let offsets = create_offset_loops(&raw, 1).unwrap();
    assert_eq!(offsets.len(), 4);
    assert_eq!(offsets.ccw_count, 2);
    let parents: Vec<usize> = (0..4).map(|i| offsets.get_loop(i).parent_loop_idx).collect();
    assert_eq!(parents, vec![0, 1, 1, 2]);
    let bounds = offsets.bounds();
    assert_eq!(
        bounds,
        vec![bx(0, 0, 100, 100), bx(12, 12, 14, 14), bx(10, 10, 20, 20), bx(50, 50, 60, 60)]
    );
    let signs: Vec<AreaSign> =
        (0..4).map(|i| offsets.get_loop(i).indexed_pline.polyline.area).collect();
    assert_eq!(
        signs,
        vec![AreaSign::Positive, AreaSign::Positive, AreaSign::Negative, AreaSign::Negative]
    );
}

#[test]
fn no_offsets_no_result() {
    assert!(create_offset_loops(&vec![], 0).is_none());
    assert!(create_offset_loops(&vec![vec![], vec![]], 1).is_none());
    let inverted = vec![vec![indexed_rect(0, 0, 4, 4, AreaSign::Negative)]];
    assert!(create_offset_loops(&inverted, 1).is_none());
}

#[test]
fn ccw_input_count_beyond_the_inputs_counts_all() {
    let raw = vec![vec![indexed_rect(0, 0, 4, 4, AreaSign::Negative)]];
    assert!(create_offset_loops(&raw, 7).is_none());
    let offsets = create_offset_loops(&raw, 0).unwrap();
    assert_eq!(offsets.ccw_count, 0);
    assert_eq!(offsets.len(), 1);
}

fn offsets_of_boxes(boxes: &Vec<Aabb>) -> OffsetLoops {
    let raw: Vec<Vec<IndexedPolyline>> = boxes
        .iter()
        .map(|b| vec![indexed_rect(b.min_x, b.min_y, b.max_x, b.max_y, AreaSign::Positive)])
        .collect();
    create_offset_loops(&raw, raw.len()).unwrap()
}

#[test]
fn pairs_are_the_overlapping_boxes_once() {
    let boxes = vec![
        bx(0, 0, 10, 10),
        bx(5, 5, 15, 15),
        bx(100, 100, 110, 110),
        bx(10, 10, 12, 12),
        bx(105, 95, 106, 120),
    ];
    let offsets = offsets_of_boxes(&boxes);
    let mut pairs = candidate_pairs(&offsets);
    for (i, j) in pairs.iter() {
        assert!(i < j);
    }
    pairs.sort();
    assert_eq!(pairs, vec![(0, 1), (0, 3), (1, 3), (2, 4)]);
}

#[test]
fn pairs_come_grouped_by_lower_loop() {
    let boxes = vec![bx(0, 0, 10, 10), bx(1, 1, 2, 2), bx(3, 3, 4, 4), bx(1, 1, 4, 4)];
    let offsets = offsets_of_boxes(&boxes);
    let pairs = candidate_pairs(&offsets);
    let firsts: Vec<usize> = pairs.iter().map(|p| p.0).collect();
    assert_eq!(firsts, vec![0, 0, 0, 1, 2]);
}

#[test]
fn pairs_over_many_loops() {
    let mut boxes = Vec::new();
    for k in 0..40i64 {
        boxes.push(bx(10 * k, 0, 10 * k + 10, 5));
    }
    let offsets = offsets_of_boxes(&boxes);
    let mut pairs = candidate_pairs(&offsets);
    pairs.sort();
    let expected: Vec<(usize, usize)> = (0..39).map(|k| (k, k + 1)).collect();
    assert_eq!(pairs, expected);
}

#[test]
fn disjoint_loops_have_no_pairs() {
    let offsets = offsets_of_boxes(&vec![bx(0, 0, 1, 1), bx(5, 5, 6, 6)]);
    assert!(candidate_pairs(&offsets).is_empty());
}

fn two_loops() -> OffsetLoops {
    offsets_of_boxes(&vec![bx(0, 0, 10, 10), bx(5, 5, 15, 15), bx(100, 100, 110, 110)])
}

#[test]
fn overlap_gives_start_and_end_under_its_segments() {
    let offsets = two_loops();
    let found = vec![PairIntersects {
        loop_idx1: 0,
        loop_idx2: 1,
        basic_intersects: vec![BasicIntersect { start_index1: 1, start_index2: 3, point: pt(10, 5) }],
        overlapping_intersects: vec![OverlappingIntersect {
            start_index1: 2,
            start_index2: 0,
            point1: pt(7, 10),
            point2: pt(6, 10),
        }],
    }];
    let points = collect_slice_points(&offsets, &found).unwrap();
    assert_eq!(points.sets.len(), 1);
    assert_eq!(points.sets[0].loop_idx1, 0);
    assert_eq!(points.sets[0].loop_idx2, 1);
    assert_eq!(
        points.sets[0].slice_points,
        vec![
            BasicIntersect { start_index1: 1, start_index2: 3, point: pt(10, 5) },
            BasicIntersect { start_index1: 2, start_index2: 0, point: pt(7, 10) },
            BasicIntersect { start_index1: 2, start_index2: 0, point: pt(6, 10) },
        ]
    );
    assert_eq!(points.lookup, vec![vec![0], vec![0], vec![]]);
}

#[test]
fn pair_without_points_has_no_set() {
    let offsets = two_loops();
    let hit = BasicIntersect { start_index1: 0, start_index2: 0, point: pt(5, 5) };
    let found = vec![
        PairIntersects { loop_idx1: 0, loop_idx2: 1, basic_intersects: vec![], overlapping_intersects: vec![] },
        PairIntersects { loop_idx1: 1, loop_idx2: 2, basic_intersects: vec![hit], overlapping_intersects: vec![] },
        PairIntersects { loop_idx1: 0, loop_idx2: 2, basic_intersects: vec![hit, hit], overlapping_intersects: vec![] },
    ];
    let points = collect_slice_points(&offsets, &found).unwrap();
    assert_eq!(points.sets.len(), 2);
    assert_eq!((points.sets[0].loop_idx1, points.sets[0].loop_idx2), (1, 2));
    assert_eq!((points.sets[1].loop_idx1, points.sets[1].loop_idx2), (0, 2));
    assert_eq!(points.lookup, vec![vec![1], vec![0], vec![0, 1]]);
}

#[test]
fn inconsistent_intersects_are_refused() {
    let offsets = two_loops();
    let ok = BasicIntersect { start_index1: 3, start_index2: 3, point: pt(5, 5) };
    let entry = |i: usize, j: usize, p: BasicIntersect| {
        vec![PairIntersects { loop_idx1: i, loop_idx2: j, basic_intersects: vec![p], overlapping_intersects: vec![] }]
    };
    assert!(collect_slice_points(&offsets, &entry(0, 1, ok)).is_some());
    assert!(collect_slice_points(&offsets, &entry(1, 0, ok)).is_none());
    assert!(collect_slice_points(&offsets, &entry(1, 1, ok)).is_none());
    assert!(collect_slice_points(&offsets, &entry(1, 3, ok)).is_none());
    let bad_seg1 = BasicIntersect { start_index1: 4, start_index2: 0, point: pt(5, 5) };
    assert!(collect_slice_points(&offsets, &entry(0, 1, bad_seg1)).is_none());
    let bad_seg2 = BasicIntersect { start_index1: 0, start_index2: 4, point: pt(5, 5) };
    assert!(collect_slice_points(&offsets, &entry(0, 1, bad_seg2)).is_none());
    let off_grid = BasicIntersect { start_index1: 0, start_index2: 0, point: pt(COORD_MAX + 1, 5) };
    assert!(collect_slice_points(&offsets, &entry(0, 1, off_grid)).is_none());
    let stretch = vec![PairIntersects {
        loop_idx1: 0,
        loop_idx2: 1,
        basic_intersects: vec![],
        overlapping_intersects: vec![OverlappingIntersect {
            start_index1: 0,
            start_index2: 0,
            point1: pt(1, 1),
            point2: pt(1, -COORD_MAX - 1),
        }],
    }];
    assert!(collect_slice_points(&offsets, &stretch).is_none());
    // an empty pair is still held to its loop positions
    let empty = vec![PairIntersects { loop_idx1: 2, loop_idx2: 1, basic_intersects: vec![], overlapping_intersects: vec![] }];
    assert!(collect_slice_points(&offsets, &empty).is_none());
}

#[test]
fn dissection_points_sorted_by_segment_then_distance() {
    // loop 0 is the square (0,0) (10,0) (10,10) (0,10); loop 1 the square from (5,5)
    let offsets = two_loops();
    let found = vec![
        PairIntersects {
            loop_idx1: 0,
            loop_idx2: 1,
            basic_intersects: vec![
                BasicIntersect { start_index1: 2, start_index2: 0, point: pt(5, 10) },
                BasicIntersect { start_index1: 1, start_index2: 3, point: pt(10, 8) },
                BasicIntersect { start_index1: 1, start_index2: 3, point: pt(10, 5) },
            ],
            overlapping_intersects: vec![],
        },
        PairIntersects {
            loop_idx1: 0,
            loop_idx2: 2,
            basic_intersects: vec![BasicIntersect { start_index1: 1, start_index2: 2, point: pt(10, 6) }],
            overlapping_intersects: vec![],
        },
    ];
    let points = collect_slice_points(&offsets, &found).unwrap();
    let on_first = dissection_points(&offsets, &points, 0);
    assert_eq!(
        on_first,
        vec![
            DissectionPoint { seg_idx: 1, pos: pt(10, 5) },
            DissectionPoint { seg_idx: 1, pos: pt(10, 6) },
            DissectionPoint { seg_idx: 1, pos: pt(10, 8) },
            DissectionPoint { seg_idx: 2, pos: pt(5, 10) },
        ]
    );
    // on the second loop the same points go by their second segment
    let on_second = dissection_points(&offsets, &points, 1);
    assert_eq!(on_second.len(), 3);
    assert_eq!(on_second[0], DissectionPoint { seg_idx: 0, pos: pt(5, 10) });
    let rest: Vec<usize> = on_second.iter().map(|p| p.seg_idx).collect();
    assert_eq!(rest, vec![0, 3, 3]);
    // segment 3 of the second loop starts at (5, 15): (10, 8) is farther than... both measured from there
    let d1 = on_second[1].pos.dist_squared_to(pt(5, 15));
    let d2 = on_second[2].pos.dist_squared_to(pt(5, 15));
    assert!(d1 <= d2);
    assert_eq!(dissection_points(&offsets, &points, 2), vec![DissectionPoint { seg_idx: 2, pos: pt(10, 6) }]);
}

#[test]
fn uncut_loop_has_no_dissection_points() {
    let offsets = two_loops();
    let points = collect_slice_points(&offsets, &vec![]).unwrap();
    assert!(dissection_points(&offsets, &points, 0).is_empty());
    assert_eq!(points.lookup, vec![Vec::<usize>::new(), vec![], vec![]]);
}

#[test]
fn zero_or_one_point_keeps_the_loop_whole() {
    assert_eq!(slice_candidates(&vec![]), vec![SliceCandidate::EntireLoop]);
    let single = vec![DissectionPoint { seg_idx: 2, pos: pt(1, 1) }];
    assert_eq!(slice_candidates(&single), vec![SliceCandidate::EntireLoop]);
}

#[test]
fn wrap_around_slice_comes_once_and_last() {
    let a = DissectionPoint { seg_idx: 0, pos: pt(1, 0) };
    let b = DissectionPoint { seg_idx: 1, pos: pt(10, 3) };
    let c = DissectionPoint { seg_idx: 3, pos: pt(0, 4) };
    assert_eq!(
        slice_candidates(&vec![a, b, c]),
        vec![
            SliceCandidate::Between { start: a, end: b },
            SliceCandidate::Between { start: b, end: c },
            SliceCandidate::Between { start: c, end: a },
        ]
    );
    assert_eq!(
        slice_candidates(&vec![a, b]),
        vec![SliceCandidate::Between { start: a, end: b }, SliceCandidate::Between { start: b, end: a }]
    );
}

#[test]
fn probes_skip_the_parent() {
    assert_eq!(probe_targets(1, 4), vec![0, 2, 3]);
    assert_eq!(probe_targets(0, 1), Vec::<usize>::new());
    assert_eq!(probe_targets(3, 4), vec![0, 1, 2]);
    assert_eq!(probe_targets(9, 3), vec![0, 1, 2]);
    assert_eq!(probe_targets(0, 0), Vec::<usize>::new());
}

#[test]
fn slice_is_valid_when_every_probe_passes() {
    assert!(is_slice_valid(&vec![]));
    assert!(is_slice_valid(&vec![true, true]));
    assert!(!is_slice_valid(&vec![true, false, true]));
    assert!(!is_slice_valid(&vec![false]));
}

#[test]
fn sort_out_separates_whole_loops_from_slices() {
    let offsets = two_loops();
    let hit = |p: Point| BasicIntersect { start_index1: 1, start_index2: 3, point: p };
    let found = vec![PairIntersects {
        loop_idx1: 0,
        loop_idx2: 1,
        basic_intersects: vec![hit(pt(10, 5)), hit(pt(5, 10))],
        overlapping_intersects: vec![],
    }];
    let points = collect_slice_points(&offsets, &found).unwrap();
    let outcomes = vec![
        vec![cleared(pt(10, 5), pt(5, 10), vec![true, true]), cleared(pt(5, 10), pt(10, 5), vec![true, false])],
        vec![None, cleared(pt(5, 10), pt(10, 5), vec![true])],
        vec![cleared(pt(100, 100), pt(100, 100), vec![true, true])],
    ];
    let left = sort_out(&points, &outcomes);
    assert_eq!(left.whole_loops, vec![2]);
    assert_eq!(left.slices, vec![slice(0, pt(10, 5), pt(5, 10)), slice(1, pt(5, 10), pt(10, 5))]);
}

#[test]
fn eclipsed_whole_loop_is_dropped() {
    let offsets = two_loops();
    let points = collect_slice_points(&offsets, &vec![]).unwrap();
    let outcomes = vec![
        vec![cleared(pt(0, 0), pt(0, 0), vec![false])],
        vec![None],
        vec![],
    ];
    let left = sort_out(&points, &outcomes);
    assert!(left.whole_loops.is_empty());
    assert!(left.slices.is_empty());
}

#[test]
fn open_candidates_drop_visited() {
    let visited = vec![false, true, false, true];
    assert_eq!(open_candidates(&vec![3, 2, 1, 0], &visited), vec![2, 0]);
    assert_eq!(open_candidates(&vec![1, 3], &visited), Vec::<usize>::new());
    assert_eq!(open_candidates(&vec![0, 9], &visited), vec![0]);
}

#[test]
fn next_slice_prefers_its_own_loop() {
    let slices = vec![
        slice(0, pt(0, 0), pt(1, 0)),
        slice(1, pt(1, 0), pt(2, 0)),
        slice(0, pt(1, 0), pt(3, 0)),
        slice(2, pt(1, 0), pt(4, 0)),
    ];
    assert_eq!(pick_next(&slices, &vec![1, 3, 2], 0), 2);
    assert_eq!(pick_next(&slices, &vec![1, 3], 0), 1);
    assert_eq!(pick_next(&slices, &vec![3, 1], 0), 3);
    assert_eq!(pick_next(&slices, &vec![3, 1, 2], 1), 1);
}

#[test]
fn stitch_joins_end_to_start() {
    let u = UNIT;
    // two loops that cross twice: the kept halves join into one chain
    let slices = vec![slice(0, pt(0, 0), pt(10 * u, 0)), slice(1, pt(10 * u, 0), pt(0, 0))];
    assert_eq!(stitch_slices(&slices), vec![vec![0, 1]]);
}

#[test]
fn stitch_joins_within_twice_the_join_reach() {
    let e = SLICE_JOIN_EPS;
    let near = vec![slice(0, pt(0, 0), pt(1000 * e, 0)), slice(1, pt(1000 * e + 2 * e, 2 * e), pt(0, 0))];
    assert_eq!(stitch_slices(&near), vec![vec![0, 1]]);
    let far = vec![slice(0, pt(0, 0), pt(1000 * e, 0)), slice(1, pt(1000 * e + 2 * e + 1, 0), pt(0, 0))];
    assert_eq!(stitch_slices(&far), vec![vec![0], vec![1]]);
    let far_y = vec![slice(0, pt(0, 0), pt(1000 * e, 0)), slice(1, pt(1000 * e, -2 * e - 1), pt(0, 0))];
    assert_eq!(stitch_slices(&far_y), vec![vec![0], vec![1]]);
}

#[test]
fn stitch_prefers_the_same_offset_loop() {
    let u = UNIT;
    let a = pt(0, 0);
    let b = pt(10 * u, 0);
    let c = pt(10 * u, 10 * u);
    // at b a slice of loop 1 and a slice of loop 0 both start
    let slices = vec![slice(0, a, b), slice(1, b, a), slice(0, b, c), slice(1, c, b)];
    let chains = stitch_slices(&slices);
    assert_eq!(chains, vec![vec![0, 2, 3, 1]]);
}

#[test]
fn stitch_takes_every_slice_once() {
    let u = UNIT;
    let mut slices = Vec::new();
    for k in 0..50i64 {
        // 25 separate two-slice rings, far apart
        let base = pt(1000 * u * (k / 2), 0);
        let tip = pt(1000 * u * (k / 2) + u, u);
        if k % 2 == 0 {
            slices.push(slice(k as usize, base, tip));
        } else {
            slices.push(slice(k as usize, tip, base));
        }
    }
    let chains = stitch_slices(&slices);
    assert_eq!(chains.len(), 25);
    let mut seen: Vec<usize> = chains.iter().flatten().copied().collect();
    seen.sort();
    assert_eq!(seen, (0..50).collect::<Vec<usize>>());
    for (k, chain) in chains.iter().enumerate() {
        assert_eq!(chain, &vec![2 * k, 2 * k + 1]);
    }
}

#[test]
fn stitch_of_nothing_is_nothing() {
    assert!(stitch_slices(&vec![]).is_empty());
}

#[test]
fn stitch_lone_closed_slice_is_its_own_chain() {
    let slices = vec![slice(4, pt(7, 7), pt(7, 7))];
    assert_eq!(stitch_slices(&slices), vec![vec![0]]);
}

#[test]
fn assemble_sorts_by_area_sign() {
    let offsets = two_loops();
    let stitched = vec![
        indexed_rect(0, 0, 3, 3, AreaSign::Negative),
        indexed_rect(0, 0, 1, 1, AreaSign::Zero),
        indexed_rect(0, 0, 2, 2, AreaSign::Positive),
    ];
    let shape = assemble(&offsets, &vec![2, 0], &stitched).unwrap();
    assert_eq!(shape.ccw_plines.len(), 3);
    assert_eq!(shape.cw_plines.len(), 1);
    assert_eq!(shape.ccw_plines[0].bounds(), bx(100, 100, 110, 110));
    assert_eq!(shape.ccw_plines[1].bounds(), bx(0, 0, 10, 10));
    assert_eq!(shape.ccw_plines[2].bounds(), bx(0, 0, 2, 2));
    assert_eq!(shape.cw_plines[0].bounds(), bx(0, 0, 3, 3));
    for p in shape.ccw_plines.iter() {
        assert_eq!(p.polyline.area, AreaSign::Positive);
    }
    for p in shape.cw_plines.iter() {
        assert_eq!(p.polyline.area, AreaSign::Negative);
    }
}

#[test]
fn assemble_of_nothing_is_nothing() {
    let offsets = two_loops();
    assert!(assemble(&offsets, &vec![], &vec![]).is_none());
    let flat = vec![indexed_rect(0, 0, 1, 1, AreaSign::Zero)];
    assert!(assemble(&offsets, &vec![], &flat).is_none());
}
