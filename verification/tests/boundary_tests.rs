use wadd::boundary::{map_bounds, sector_linedefs};
use wadd::{
    map_boundaries, sector_boundary, stitch_loops, FormatIssue, LineDef, MapData, Seg, Sector,
    SideDef, Vertex, WadError,
};

fn vertex(x: i16, y: i16) -> Vertex {
    Vertex { x, y }
}

fn linedef(vb: i16, ve: i16, right: i16, left: i16) -> LineDef {
    LineDef {
        vertex_begin: vb,
        vertex_end: ve,
        flags: 0,
        line_type: 0,
        sector_tag: 0,
        sidedef_right: right,
        sidedef_left: left,
    }
}

fn sidedef(sector: u16) -> SideDef {
    SideDef {
        x_offset: 0,
        y_offset: 0,
        upper_texture: None,
        lower_texture: None,
        middle_texture: None,
        sector,
    }
}

fn sector(light_level: i16) -> Sector {
    Sector {
        floor_height: 0,
        ceiling_height: 128,
        floor_texture: String::from("FLOOR4_8"),
        ceiling_texture: String::from("CEIL3_5"),
        light_level,
        special: 0,
        sector_tag: 0,
    }
}

fn seg(ax: i16, ay: i16, bx: i16, by: i16) -> Seg {
    Seg { a: vertex(ax, ay), b: vertex(bx, by), one_sided: false }
}

/// One sector bounded by a closed quadrilateral of two-sided wall edges.
fn square_map(light_level: i16) -> MapData {
    MapData {
        name: String::from("MAP01"),
        linedefs: vec![
            linedef(0, 1, 0, 0),
            linedef(1, 2, 0, 0),
            linedef(2, 3, 0, 0),
            linedef(3, 0, 0, 0),
        ],
        sectors: vec![sector(light_level)],
        sidedefs: vec![sidedef(0)],
        things: vec![],
        vertexes: vec![vertex(0, 0), vertex(64, 0), vertex(64, 64), vertex(0, 64)],
    }
}

#[test]
fn square_sector_yields_one_closed_four_point_loop() {
    let map = square_map(160);
    let bounds = map_bounds(&map).unwrap();
    assert_eq!(bounds.min_x, 0);
    assert_eq!(bounds.max_x, 64);
    assert_eq!(bounds.min_y, 0);
    assert_eq!(bounds.max_y, 64);
    let boundary = sector_boundary(&map, 0, &bounds).unwrap();
    assert_eq!(boundary.loops.len(), 1);
    let polyloop = &boundary.loops[0];
    assert!(polyloop.closed);
    assert_eq!(polyloop.points.len(), 4);
    // The map's y extent is mirrored into render space.
    assert_eq!(polyloop.points[0], vertex(0, 64));
    assert_eq!(polyloop.points[1], vertex(64, 64));
    assert_eq!(polyloop.points[2], vertex(64, 0));
    assert_eq!(polyloop.points[3], vertex(0, 0));
    assert_eq!(boundary.edges.len(), 4);
    assert!(boundary.edges.iter().all(|e| !e.one_sided));
    assert_eq!(boundary.warnings.len(), 0);
    assert_eq!(boundary.light, 160);
}

#[test]
fn light_level_is_clamped_for_rendering() {
    let map = square_map(300);
    let bounds = map_bounds(&map).unwrap();
    let boundary = sector_boundary(&map, 0, &bounds).unwrap();
    assert_eq!(boundary.light, 255);
    let map = square_map(-40);
    let bounds = map_bounds(&map).unwrap();
    let boundary = sector_boundary(&map, 0, &bounds).unwrap();
    assert_eq!(boundary.light, 0);
}

#[test]
fn sector_with_a_hole_yields_two_disjoint_loops() {
    let map = MapData {
        name: String::from("MAP01"),
        linedefs: vec![
            linedef(0, 1, 0, 0),
            linedef(1, 2, 0, 0),
            linedef(2, 3, 0, 0),
            linedef(3, 0, 0, 0),
            linedef(4, 5, 0, 0),
            linedef(5, 6, 0, 0),
            linedef(6, 7, 0, 0),
            linedef(7, 4, 0, 0),
        ],
        sectors: vec![sector(128)],
        sidedefs: vec![sidedef(0)],
        things: vec![],
        vertexes: vec![
            vertex(0, 0),
            vertex(100, 0),
            vertex(100, 100),
            vertex(0, 100),
            vertex(40, 40),
            vertex(60, 40),
            vertex(60, 60),
            vertex(40, 60),
        ],
    };
    let bounds = map_bounds(&map).unwrap();
    let boundary = sector_boundary(&map, 0, &bounds).unwrap();
    assert_eq!(boundary.loops.len(), 2);
    let outer = &boundary.loops[0];
    let inner = &boundary.loops[1];
    assert!(outer.closed);
    assert!(inner.closed);
    assert_eq!(outer.points.len(), 4);
    assert_eq!(inner.points.len(), 4);
    for p in &inner.points {
        assert!(!outer.points.contains(p));
    }
    assert_eq!(boundary.warnings.len(), 0);
}

#[test]
fn disconnected_segment_is_a_warning_not_an_error() {
    let map = MapData {
        name: String::from("MAP01"),
        linedefs: vec![
            linedef(0, 1, 0, 0),
            linedef(1, 2, 0, 0),
            linedef(2, 0, 0, 0),
            linedef(3, 4, 0, 0),
        ],
        sectors: vec![sector(128)],
        sidedefs: vec![sidedef(0)],
        things: vec![],
        vertexes: vec![
            vertex(0, 0),
            vertex(50, 0),
            vertex(25, 50),
            vertex(200, 200),
            vertex(250, 250),
        ],
    };
    let (bounds, sectors) = map_boundaries(&map).unwrap();
    assert_eq!(bounds.max_x, 250);
    assert_eq!(sectors.len(), 1);
    let boundary = &sectors[0];
    assert_eq!(boundary.loops.len(), 2);
    assert!(boundary.loops[0].closed);
    assert_eq!(boundary.loops[0].points.len(), 3);
    assert!(!boundary.loops[1].closed);
    assert_eq!(boundary.loops[1].points.len(), 2);
    assert_eq!(boundary.warnings.len(), 1);
    assert_eq!(boundary.warnings[0].sector, 0);
    assert_eq!(boundary.warnings[0].remaining, 0);
}

#[test]
fn stitching_is_deterministic_for_equal_inputs() {
    let segs = vec![
        seg(0, 0, 10, 0),
        seg(10, 10, 10, 0),
        seg(0, 10, 10, 10),
        seg(0, 0, 0, 10),
        seg(70, 70, 90, 90),
    ];
    let (loops1, tails1) = stitch_loops(&segs);
    let (loops2, tails2) = stitch_loops(&segs);
    assert_eq!(loops1.len(), loops2.len());
    for (l1, l2) in loops1.iter().zip(loops2.iter()) {
        assert_eq!(l1.points, l2.points);
        assert_eq!(l1.closed, l2.closed);
    }
    assert_eq!(tails1, tails2);
}

#[test]
fn stitching_reorients_backward_segments() {
    // The second segment is stored in the opposite direction of the chain.
    let segs = vec![seg(0, 0, 10, 0), seg(10, 10, 10, 0), seg(10, 10, 0, 0)];
    let (loops, tails) = stitch_loops(&segs);
    assert_eq!(loops.len(), 1);
    assert!(loops[0].closed);
    assert_eq!(loops[0].points, vec![vertex(0, 0), vertex(10, 0), vertex(10, 10)]);
    assert_eq!(tails.len(), 0);
}

#[test]
fn membership_takes_either_side_into_the_sector() {
    let map = MapData {
        name: String::from("MAP01"),
        linedefs: vec![
            // Right face in sector 0, left face in sector 1.
            linedef(0, 1, 0, 1),
            // One-sided wall of sector 1.
            linedef(1, 2, 1, -1),
            // One-sided wall of sector 0.
            linedef(2, 0, 0, -1),
        ],
        sectors: vec![sector(128), sector(192)],
        sidedefs: vec![sidedef(0), sidedef(1)],
        things: vec![],
        vertexes: vec![vertex(0, 0), vertex(50, 0), vertex(25, 50)],
    };
    let members0 = sector_linedefs(&map, 0).unwrap();
    let members1 = sector_linedefs(&map, 1).unwrap();
    assert_eq!(members0.len(), 2);
    assert_eq!(members1.len(), 2);
    for ld in &members0 {
        let right_hits = ld.sidedef_right >= 0
            && map.sidedefs[ld.sidedef_right as usize].sector == 0;
        let left_hits = ld.sidedef_left >= 0
            && map.sidedefs[ld.sidedef_left as usize].sector == 0;
        assert!(right_hits || left_hits);
    }
    let bounds = map_bounds(&map).unwrap();
    let boundary = sector_boundary(&map, 0, &bounds).unwrap();
    assert_eq!(boundary.edges.len(), 2);
    assert!(!boundary.edges[0].one_sided);
    assert!(boundary.edges[1].one_sided);
}

#[test]
fn out_of_range_side_index_is_a_format_error() {
    let mut map = square_map(128);
    map.linedefs[2].sidedef_left = 9;
    let bounds = map_bounds(&map).unwrap();
    let err = sector_boundary(&map, 0, &bounds).unwrap_err();
    match err {
        WadError::FormatError(FormatIssue::BadIndex { lump, record }) => {
            assert_eq!(lump, "LINEDEFS");
            assert_eq!(record, 2);
        },
        other => panic!("expected a bad-index error, got {:?}", other),
    }
}

#[test]
fn out_of_range_vertex_index_is_a_format_error() {
    let mut map = square_map(128);
    map.linedefs[1].vertex_end = -3;
    let err = map_bounds(&map).unwrap_err();
    match err {
        WadError::FormatError(FormatIssue::BadIndex { lump, record }) => {
            assert_eq!(lump, "LINEDEFS");
            assert_eq!(record, 1);
        },
        other => panic!("expected a bad-index error, got {:?}", other),
    }
}

#[test]
fn all_sectors_of_a_map_share_its_bounds() {
    let mut map = square_map(128);
    map.linedefs.push(linedef(0, 1, 1, 1));
    map.sidedefs.push(sidedef(1));
    map.sectors.push(sector(90));
    let (bounds, sectors) = map_boundaries(&map).unwrap();
    assert_eq!(sectors.len(), 2);
    // Both sectors see the same flipped coordinates for the shared edge.
    let edge0 = sectors[0].edges[0];
    let edge1 = sectors[1].edges[0];
    assert_eq!(edge0.a, edge1.a);
    assert_eq!(edge0.b, edge1.b);
    assert_eq!(bounds.max_y, 64);
}
