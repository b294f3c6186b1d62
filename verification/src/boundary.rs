//! Reconstruction of sector boundaries from decoded map geometry.
//!
//! A sector's boundary is rebuilt in three steps. Membership: a wall edge
//! belongs to the sector when one of its wall faces references it. Segment
//! materialization: each member edge's vertex indices are resolved to
//! coordinates, with the map's vertical extent flipping the y axis into
//! render space (origin top-left, y growing downward). Stitching: the
//! unordered segments are chained into closed polygon loops; a sector with a
//! hole yields several loops, and a chain that fails to return to its start
//! stays open and is reported as a warning, never as an error.

use vstd::prelude::*;

use crate::errors::FormatIssue;
use crate::errors::FormatIssueModel;
use crate::errors::WadError;
use crate::errors::WadErrorModel;
use crate::records::LineDef;
use crate::records::MapData;
use crate::records::MapDataModel;
use crate::records::SideDefModel;
use crate::records::Vertex;

verus! {

/// A materialized wall-edge segment: two render-space endpoints and whether
/// the edge has a single wall face (a solid wall) or two.
#[derive(Clone, Copy, Debug, PartialEq, Eq, Structural)]
pub struct Seg {
    pub a: Vertex,
    pub b: Vertex,
    pub one_sided: bool,
}

/// A map's coordinate extent over all vertices referenced by its wall edges.
#[derive(Clone, Copy, Debug, PartialEq, Eq, Structural)]
pub struct MapBounds {
    pub min_x: i16,
    pub max_x: i16,
    pub min_y: i16,
    pub max_y: i16,
}

/// A wall edge belongs to sector `s` when a non-negative side index of it
/// names a wall face whose sector field equals `s`.
pub open spec fn spec_linedef_in_sector(ld: LineDef, sidedefs: Seq<SideDefModel>, s: int) -> bool {
    ||| (ld.sidedef_right >= 0 && ld.sidedef_right < sidedefs.len() && sidedefs[
        ld.sidedef_right as int
    ].sector == s)
    ||| (ld.sidedef_left >= 0 && ld.sidedef_left < sidedefs.len() && sidedefs[
        ld.sidedef_left as int
    ].sector == s)
}

/// Every non-negative side index of the wall edge lies inside the wall-face
/// list.
pub open spec fn spec_sides_in_range(ld: LineDef, nsides: int) -> bool {
    &&& (ld.sidedef_right >= 0 ==> ld.sidedef_right < nsides)
    &&& (ld.sidedef_left >= 0 ==> ld.sidedef_left < nsides)
}

/// Both vertex indices of the wall edge lie inside the vertex list.
pub open spec fn spec_vertices_in_range(ld: LineDef, nverts: int) -> bool {
    &&& 0 <= ld.vertex_begin < nverts
    &&& 0 <= ld.vertex_end < nverts
}

/// The first wall edge from position `i` whose side indices reach outside
/// the wall-face list, if any.
pub open spec fn spec_first_bad_side(linedefs: Seq<LineDef>, nsides: int, i: int) -> Option<int>
    decreases linedefs.len() - i,
{
    if i < 0 || i >= linedefs.len() {
        None
    } else if !spec_sides_in_range(linedefs[i], nsides) {
        Some(i)
    } else {
        spec_first_bad_side(linedefs, nsides, i + 1)
    }
}

/// The first wall edge from position `i` whose vertex indices reach outside
/// the vertex list, if any.
pub open spec fn spec_first_bad_vertex(linedefs: Seq<LineDef>, nverts: int, i: int) -> Option<int>
    decreases linedefs.len() - i,
{
    if i < 0 || i >= linedefs.len() {
        None
    } else if !spec_vertices_in_range(linedefs[i], nverts) {
        Some(i)
    } else {
        spec_first_bad_vertex(linedefs, nverts, i + 1)
    }
}

/// The sector-membership predicate for a whole wall-edge list, as a filter.
pub open spec fn spec_sector_members(m: MapDataModel, s: int) -> Seq<LineDef> {
    m.linedefs.filter(|ld: LineDef| spec_linedef_in_sector(ld, m.sidedefs, s))
}

/// Collects the wall edges that belong to the given sector, in declaration
/// order. Fails when some wall edge's side index reaches outside the
/// wall-face list, naming the first such edge.
pub fn sector_linedefs(map: &MapData, sector_index: usize) -> (r: Result<Vec<LineDef>, WadError>)
    ensures
        r is Ok <==> spec_first_bad_side(map@.linedefs, map@.sidedefs.len() as int, 0) is None,
        r is Ok ==> r->Ok_0@ == spec_sector_members(map@, sector_index as int),
        r is Ok ==> forall|i: int|
            0 <= i < r->Ok_0@.len() ==> map@.linedefs.contains(#[trigger] r->Ok_0@[i]),
        r is Err ==> (spec_first_bad_side(map@.linedefs, map@.sidedefs.len() as int, 0) matches Some(
            j,
        ) && r->Err_0@ == WadErrorModel::FormatError(
            FormatIssueModel::BadIndex { lump: "LINEDEFS"@, record: j as usize },
        )),
{
    let ghost lds = map@.linedefs;
    let ghost sds = map@.sidedefs;
    let ghost pred = |ld: LineDef| spec_linedef_in_sector(ld, sds, sector_index as int);
    let nsides = map.sidedefs.len();
    let n = map.linedefs.len();
    let mut members: Vec<LineDef> = Vec::new();
    let mut i: usize = 0;
    proof {
        reveal(Seq::filter);
        assert(lds.take(0).filter(pred) =~= Seq::<LineDef>::empty());
    }
    while i < n
        invariant
            0 <= i <= n,
            n == lds.len(),
            lds == map@.linedefs,
            sds == map@.sidedefs,
            nsides == sds.len(),
            n == map.linedefs@.len(),
            nsides == map.sidedefs@.len(),
            pred == (|ld: LineDef| spec_linedef_in_sector(ld, sds, sector_index as int)),
            spec_first_bad_side(lds, nsides as int, 0) == spec_first_bad_side(
                lds,
                nsides as int,
                i as int,
            ),
            members@ == lds.take(i as int).filter(pred),
            forall|k: int| 0 <= k < members@.len() ==> lds.contains(#[trigger] members@[k]),
        decreases n - i,
    {
        let ld = map.linedefs[i];
        proof {
            assert(lds[i as int] == ld);
        }
        let right = ld.sidedef_right;
        let left = ld.sidedef_left;
        if (right >= 0 && right as usize >= nsides) || (left >= 0 && left as usize >= nsides) {
            proof {
                assert(!spec_sides_in_range(lds[i as int], nsides as int));
            }
            return Err(
                WadError::FormatError(
                    FormatIssue::BadIndex { lump: string_linedefs(), record: i },
                ),
            );
        }
        let mut is_member = false;
        if right >= 0 {
            if map.sidedefs[right as usize].sector as usize == sector_index {
                is_member = true;
            }
        }
        if left >= 0 {
            if map.sidedefs[left as usize].sector as usize == sector_index {
                is_member = true;
            }
        }
        proof {
            if right >= 0 {
                assert(sds[right as int] == map.sidedefs@[right as int]@);
            }
            if left >= 0 {
                assert(sds[left as int] == map.sidedefs@[left as int]@);
            }
            assert(is_member == pred(ld));
            assert(lds.take(i as int + 1).drop_last() =~= lds.take(i as int));
            assert(lds.take(i as int + 1).last() == ld);
        }
        if is_member {
            members.push(ld);
            proof {
                reveal(Seq::filter);
                assert(members@ =~= lds.take(i as int).filter(pred).push(ld));
                assert(lds.take(i as int + 1).filter(pred) =~= lds.take(i as int).filter(
                    pred,
                ).push(ld));
            }
        } else {
            proof {
                reveal(Seq::filter);
                assert(lds.take(i as int + 1).filter(pred) =~= lds.take(i as int).filter(pred));
            }
        }
        i = i + 1;
    }
    proof {
        assert(lds.take(n as int) =~= lds);
    }
    Ok(members)
}

/// The wall-edge lump's name, for error reporting.
fn string_linedefs() -> (r: String)
    ensures
        r@ == "LINEDEFS"@,
{
    let r = "LINEDEFS".to_owned();
    r
}

/// Checks that every wall edge's vertex indices lie inside the vertex list;
/// fails naming the first edge that reaches outside it.
pub fn check_vertex_refs(map: &MapData) -> (r: Result<(), WadError>)
    ensures
        r is Ok <==> spec_first_bad_vertex(map@.linedefs, map@.vertexes.len() as int, 0) is None,
        r is Err ==> (spec_first_bad_vertex(
            map@.linedefs,
            map@.vertexes.len() as int,
            0,
        ) matches Some(j) && r->Err_0@ == WadErrorModel::FormatError(
            FormatIssueModel::BadIndex { lump: "LINEDEFS"@, record: j as usize },
        )),
{
    let ghost lds = map@.linedefs;
    let nverts = map.vertexes.len();
    let n = map.linedefs.len();
    let mut i: usize = 0;
    while i < n
        invariant
            0 <= i <= n,
            n == lds.len(),
            lds == map@.linedefs,
            nverts == map@.vertexes.len(),
            n == map.linedefs@.len(),
            nverts == map.vertexes@.len(),
            spec_first_bad_vertex(lds, nverts as int, 0) == spec_first_bad_vertex(
                lds,
                nverts as int,
                i as int,
            ),
        decreases n - i,
    {
        let ld = map.linedefs[i];
        proof {
            assert(lds[i as int] == ld);
        }
        let vb = ld.vertex_begin;
        let ve = ld.vertex_end;
        if vb < 0 || vb as usize >= nverts || ve < 0 || ve as usize >= nverts {
            proof {
                assert(!spec_vertices_in_range(lds[i as int], nverts as int));
            }
            return Err(
                WadError::FormatError(
                    FormatIssue::BadIndex { lump: string_linedefs(), record: i },
                ),
            );
        }
        i = i + 1;
    }
    Ok(())
}

/// The bounds hold every vertex that an in-range wall edge references.
pub open spec fn spec_bounds_contain(m: MapDataModel, b: MapBounds) -> bool {
    forall|i: int|
        0 <= i < m.linedefs.len() && spec_vertices_in_range(
            #[trigger] m.linedefs[i],
            m.vertexes.len() as int,
        ) ==> {
            let v1 = m.vertexes[m.linedefs[i].vertex_begin as int];
            let v2 = m.vertexes[m.linedefs[i].vertex_end as int];
            &&& b.min_x <= v1.x <= b.max_x
            &&& b.min_y <= v1.y <= b.max_y
            &&& b.min_x <= v2.x <= b.max_x
            &&& b.min_y <= v2.y <= b.max_y
        }
}

/// Each bound is attained by some referenced vertex coordinate.
pub open spec fn spec_bounds_tight(m: MapDataModel, b: MapBounds) -> bool {
    &&& exists|i: int, v: Vertex|
        spec_ref_vertex(m, i, v) && v.x == b.min_x
    &&& exists|i: int, v: Vertex|
        spec_ref_vertex(m, i, v) && v.x == b.max_x
    &&& exists|i: int, v: Vertex|
        spec_ref_vertex(m, i, v) && v.y == b.min_y
    &&& exists|i: int, v: Vertex|
        spec_ref_vertex(m, i, v) && v.y == b.max_y
}

/// Vertex `v` is an endpoint of the wall edge at position `i`.
pub open spec fn spec_ref_vertex(m: MapDataModel, i: int, v: Vertex) -> bool {
    &&& 0 <= i < m.linedefs.len()
    &&& spec_vertices_in_range(m.linedefs[i], m.vertexes.len() as int)
    &&& (v == m.vertexes[m.linedefs[i].vertex_begin as int] || v == m.vertexes[m.linedefs[i].vertex_end as int])
}

/// Computes the map's coordinate extent over the vertices its wall edges
/// reference. Fails when a wall edge's vertex index reaches outside the
/// vertex list, naming the first such edge.
pub fn map_bounds(map: &MapData) -> (r: Result<MapBounds, WadError>)
    requires
        map@.linedefs.len() > 0,
    ensures
        r is Ok <==> spec_first_bad_vertex(map@.linedefs, map@.vertexes.len() as int, 0) is None,
        r is Ok ==> spec_bounds_contain(map@, r->Ok_0) && spec_bounds_tight(map@, r->Ok_0),
        r is Err ==> (spec_first_bad_vertex(
            map@.linedefs,
            map@.vertexes.len() as int,
            0,
        ) matches Some(j) && r->Err_0@ == WadErrorModel::FormatError(
            FormatIssueModel::BadIndex { lump: "LINEDEFS"@, record: j as usize },
        )),
{
    match check_vertex_refs(map) {
        Ok(()) => {},
        Err(e) => {
            return Err(e);
        },
    }
    let ghost m = map@;
    let n = map.linedefs.len();
    proof {
        lemma_no_bad_vertex(m.linedefs, m.vertexes.len() as int);
        assert(spec_vertices_in_range(m.linedefs[0], m.vertexes.len() as int));
    }
    let ld0 = map.linedefs[0];
    let v0 = map.vertexes[ld0.vertex_begin as usize];
    let mut min_x = v0.x;
    let mut max_x = v0.x;
    let mut min_y = v0.y;
    let mut max_y = v0.y;
    let mut i: usize = 0;
    proof {
        assert(spec_ref_vertex(m, 0, v0));
    }
    while i < n
        invariant
            0 <= i <= n,
            n == m.linedefs.len(),
            m == map@,
            n == map.linedefs@.len(),
            spec_first_bad_vertex(m.linedefs, m.vertexes.len() as int, 0) is None,
            exists|j: int, v: Vertex| spec_ref_vertex(m, j, v) && v.x == min_x,
            exists|j: int, v: Vertex| spec_ref_vertex(m, j, v) && v.x == max_x,
            exists|j: int, v: Vertex| spec_ref_vertex(m, j, v) && v.y == min_y,
            exists|j: int, v: Vertex| spec_ref_vertex(m, j, v) && v.y == max_y,
            forall|j: int|
                0 <= j < i ==> {
                    let v1 = m.vertexes[(#[trigger] m.linedefs[j]).vertex_begin as int];
                    let v2 = m.vertexes[m.linedefs[j].vertex_end as int];
                    &&& min_x <= v1.x <= max_x
                    &&& min_y <= v1.y <= max_y
                    &&& min_x <= v2.x <= max_x
                    &&& min_y <= v2.y <= max_y
                },
        decreases n - i,
    {
        proof {
            lemma_no_bad_vertex(m.linedefs, m.vertexes.len() as int);
            assert(spec_vertices_in_range(m.linedefs[i as int], m.vertexes.len() as int));
            assert(map.linedefs@[i as int] == m.linedefs[i as int]);
        }
        let ld = map.linedefs[i];
        let v1 = map.vertexes[ld.vertex_begin as usize];
        let v2 = map.vertexes[ld.vertex_end as usize];
        proof {
            assert(spec_ref_vertex(m, i as int, v1));
            assert(spec_ref_vertex(m, i as int, v2));
        }
        if v1.x < min_x {
            min_x = v1.x;
        }
        if v1.x > max_x {
            max_x = v1.x;
        }
        if v1.y < min_y {
            min_y = v1.y;
        }
        if v1.y > max_y {
            max_y = v1.y;
        }
        if v2.x < min_x {
            min_x = v2.x;
        }
        if v2.x > max_x {
            max_x = v2.x;
        }
        if v2.y < min_y {
            min_y = v2.y;
        }
        if v2.y > max_y {
            max_y = v2.y;
        }
        i = i + 1;
    }
    Ok(MapBounds { min_x, max_x, min_y, max_y })
}

/// When no wall edge is reported bad, every wall edge's vertex indices are in
/// range.
pub proof fn lemma_no_bad_vertex(linedefs: Seq<LineDef>, nverts: int)
    requires
        spec_first_bad_vertex(linedefs, nverts, 0) is None,
    ensures
        forall|i: int|
            0 <= i < linedefs.len() ==> spec_vertices_in_range(#[trigger] linedefs[i], nverts),
{
    assert forall|i: int| 0 <= i < linedefs.len() implies spec_vertices_in_range(
        #[trigger] linedefs[i],
        nverts,
    ) by {
        lemma_first_bad_vertex_prefix(linedefs, nverts, 0, i);
    }
}

/// When the scan from `j` reports nothing and `j <= i`, the edge at `i` is in
/// range.
proof fn lemma_first_bad_vertex_prefix(linedefs: Seq<LineDef>, nverts: int, j: int, i: int)
    requires
        0 <= j <= i < linedefs.len(),
        spec_first_bad_vertex(linedefs, nverts, j) is None,
    ensures
        spec_vertices_in_range(linedefs[i], nverts),
    decreases i - j,
{
    if j < i {
        lemma_first_bad_vertex_prefix(linedefs, nverts, j + 1, i);
    }
}

/// When no wall edge is reported bad, every wall edge's side indices are in
/// range.
pub proof fn lemma_no_bad_side(linedefs: Seq<LineDef>, nsides: int)
    requires
        spec_first_bad_side(linedefs, nsides, 0) is None,
    ensures
        forall|i: int|
            0 <= i < linedefs.len() ==> spec_sides_in_range(#[trigger] linedefs[i], nsides),
{
    assert forall|i: int| 0 <= i < linedefs.len() implies spec_sides_in_range(
        #[trigger] linedefs[i],
        nsides,
    ) by {
        lemma_first_bad_side_prefix(linedefs, nsides, 0, i);
    }
}

/// When the scan from `j` reports nothing and `j <= i`, the edge at `i` has
/// in-range sides.
proof fn lemma_first_bad_side_prefix(linedefs: Seq<LineDef>, nsides: int, j: int, i: int)
    requires
        0 <= j <= i < linedefs.len(),
        spec_first_bad_side(linedefs, nsides, j) is None,
    ensures
        spec_sides_in_range(linedefs[i], nsides),
    decreases i - j,
{
    if j < i {
        lemma_first_bad_side_prefix(linedefs, nsides, j + 1, i);
    }
}

/// The vertical flip into render space: the map's y extent is mirrored, so
/// the top of the map lands at the top of the output.
pub open spec fn spec_flip_y(y: i16, b: MapBounds) -> i16 {
    ((b.max_y as int) - (y as int) + (b.min_y as int)) as i16
}

/// The render-space segment of one member wall edge: both endpoints resolved
/// and flipped, and the one-sided flag set when either side index is the
/// no-side sentinel.
pub open spec fn spec_segment(ld: LineDef, vertexes: Seq<Vertex>, b: MapBounds) -> Seg {
    let v1 = vertexes[ld.vertex_begin as int];
    let v2 = vertexes[ld.vertex_end as int];
    Seg {
        a: Vertex { x: v1.x, y: spec_flip_y(v1.y, b) },
        b: Vertex { x: v2.x, y: spec_flip_y(v2.y, b) },
        one_sided: ld.sidedef_left < 0 || ld.sidedef_right < 0,
    }
}

/// The segment set of one sector: its member edges materialized in
/// declaration order under the map's bounds.
pub open spec fn spec_sector_segments(m: MapDataModel, s: int, b: MapBounds) -> Seq<Seg> {
    spec_sector_members(m, s).map_values(|ld: LineDef| spec_segment(ld, m.vertexes, b))
}

/// Materializes member wall edges into render-space segments.
fn materialize_segments(map: &MapData, members: &Vec<LineDef>, bounds: &MapBounds) -> (r: Vec<Seg>)
    requires
        forall|i: int| 0 <= i < members@.len() ==> map@.linedefs.contains(#[trigger] members@[i]),
        spec_first_bad_vertex(map@.linedefs, map@.vertexes.len() as int, 0) is None,
        spec_bounds_contain(map@, *bounds),
    ensures
        r@ == members@.map_values(|ld: LineDef| spec_segment(ld, map@.vertexes, *bounds)),
{
    let ghost m = map@;
    let ghost b = *bounds;
    let n = members.len();
    let mut segs: Vec<Seg> = Vec::new();
    let mut i: usize = 0;
    proof {
        lemma_no_bad_vertex(m.linedefs, m.vertexes.len() as int);
    }
    while i < n
        invariant
            0 <= i <= n,
            n == members@.len(),
            m == map@,
            b == *bounds,
            n == members.len(),
            forall|k: int| 0 <= k < n ==> m.linedefs.contains(#[trigger] members@[k]),
            forall|k: int|
                0 <= k < m.linedefs.len() ==> spec_vertices_in_range(
                    #[trigger] m.linedefs[k],
                    m.vertexes.len() as int,
                ),
            spec_bounds_contain(m, b),
            segs@ =~= members@.take(i as int).map_values(
                |ld: LineDef| spec_segment(ld, m.vertexes, b),
            ),
        decreases n - i,
    {
        let ld = members[i];
        proof {
            assert(members@[i as int] == ld);
            assert(m.linedefs.contains(ld));
            let w = choose|j: int| 0 <= j < m.linedefs.len() && m.linedefs[j] == ld;
            assert(0 <= w < m.linedefs.len() && m.linedefs[w] == ld);
            assert(spec_vertices_in_range(ld, m.vertexes.len() as int));
            assert({
                let v1 = m.vertexes[ld.vertex_begin as int];
                let v2 = m.vertexes[ld.vertex_end as int];
                &&& b.min_x <= v1.x <= b.max_x
                &&& b.min_y <= v1.y <= b.max_y
                &&& b.min_x <= v2.x <= b.max_x
                &&& b.min_y <= v2.y <= b.max_y
            });
        }
        let v1 = map.vertexes[ld.vertex_begin as usize];
        let v2 = map.vertexes[ld.vertex_end as usize];
        let fy1: i32 = (bounds.max_y as i32) - (v1.y as i32) + (bounds.min_y as i32);
        let fy2: i32 = (bounds.max_y as i32) - (v2.y as i32) + (bounds.min_y as i32);
        let seg = Seg {
            a: Vertex { x: v1.x, y: fy1 as i16 },
            b: Vertex { x: v2.x, y: fy2 as i16 },
            one_sided: ld.sidedef_left < 0 || ld.sidedef_right < 0,
        };
        proof {
            assert(seg == spec_segment(ld, m.vertexes, b));
            assert(members@.take(i as int + 1).drop_last() =~= members@.take(i as int));
        }
        segs.push(seg);
        proof {
            assert(segs@ =~= members@.take(i as int + 1).map_values(
                |l: LineDef| spec_segment(l, m.vertexes, b),
            ));
        }
        i = i + 1;
    }
    proof {
        assert(members@.take(n as int) =~= members@);
    }
    segs
}

/// One reconstructed boundary loop: its ordered render-space points, and
/// whether the chain closed back to its starting point. A closed loop stores
/// its starting point once, not again at the end.
#[derive(Clone, Debug)]
pub struct PolyLoop {
    pub points: Vec<Vertex>,
    pub closed: bool,
}

/// Mathematical model of a [`PolyLoop`].
pub struct LoopModel {
    pub points: Seq<Vertex>,
    pub closed: bool,
}

impl View for PolyLoop {
    type V = LoopModel;

    open spec fn view(&self) -> LoopModel {
        LoopModel { points: self.points@, closed: self.closed }
    }
}

impl DeepView for PolyLoop {
    type V = LoopModel;

    open spec fn deep_view(&self) -> LoopModel {
        self.view()
    }
}

/// The segment has the point as one of its endpoints, in either direction.
pub open spec fn seg_matches(s: Seg, p: Vertex) -> bool {
    s.a == p || s.b == p
}

/// The segment's endpoint away from the given one; the segment is re-oriented
/// so the chain continues whatever its stored direction.
pub open spec fn seg_other(s: Seg, p: Vertex) -> Vertex {
    if s.a == p {
        s.b
    } else {
        s.a
    }
}

/// The first segment from position `i` with an endpoint at `p`, in list
/// order, if any.
pub open spec fn spec_first_match(segs: Seq<Seg>, p: Vertex, i: int) -> Option<int>
    decreases segs.len() - i,
{
    if i < 0 || i >= segs.len() {
        None
    } else if seg_matches(segs[i], p) {
        Some(i)
    } else {
        spec_first_match(segs, p, i + 1)
    }
}

/// A found match lies between the scan start and the list's end.
pub proof fn lemma_first_match_bounds(segs: Seq<Seg>, p: Vertex, i: int)
    ensures
        spec_first_match(segs, p, i) matches Some(j) ==> i <= j < segs.len() && seg_matches(
            segs[j],
            p,
        ),
    decreases segs.len() - i,
{
    if 0 <= i < segs.len() && !seg_matches(segs[i], p) {
        lemma_first_match_bounds(segs, p, i + 1);
    }
}

/// Chains segments onto a loop: repeatedly, the first remaining segment with
/// an endpoint at the current point is removed and its other endpoint is
/// appended and becomes current; the chain ends when no segment matches.
/// Yields the chained points and the segments left over.
pub open spec fn spec_chain(segs: Seq<Seg>, pts: Seq<Vertex>, cur: Vertex) -> (
    Seq<Vertex>,
    Seq<Seg>,
)
    decreases segs.len(),
    via spec_chain_decreases
{
    match spec_first_match(segs, cur, 0) {
        None => (pts, segs),
        Some(i) => spec_chain(
            segs.remove(i),
            pts.push(seg_other(segs[i], cur)),
            seg_other(segs[i], cur),
        ),
    }
}

#[via_fn]
proof fn spec_chain_decreases(segs: Seq<Seg>, pts: Seq<Vertex>, cur: Vertex) {
    lemma_first_match_bounds(segs, cur, 0);
}

/// Chaining never leaves more segments over than it was given.
pub proof fn lemma_chain_rest_len(segs: Seq<Seg>, pts: Seq<Vertex>, cur: Vertex)
    ensures
        spec_chain(segs, pts, cur).1.len() <= segs.len(),
    decreases segs.len(),
{
    lemma_first_match_bounds(segs, cur, 0);
    match spec_first_match(segs, cur, 0) {
        None => {},
        Some(i) => {
            lemma_chain_rest_len(
                segs.remove(i),
                pts.push(seg_other(segs[i], cur)),
                seg_other(segs[i], cur),
            );
        },
    }
}

/// Marks a finished chain: when its last point returns to its first, the
/// duplicate final point is dropped and the loop is closed; otherwise the
/// loop is left open exactly as chained.
pub open spec fn spec_close(pts: Seq<Vertex>) -> LoopModel {
    if pts.len() >= 2 && pts.last() == pts[0] {
        LoopModel { points: pts.drop_last(), closed: true }
    } else {
        LoopModel { points: pts, closed: false }
    }
}

/// Stitches a segment list into loops: each round starts a chain with the
/// first remaining segment and chains until no endpoint matches. Every pair
/// carries the finished loop and how many segments remained when it ended.
pub open spec fn spec_stitch(segs: Seq<Seg>) -> Seq<(LoopModel, nat)>
    decreases segs.len(),
    via spec_stitch_decreases
{
    if segs.len() == 0 {
        Seq::empty()
    } else {
        let st = spec_chain(segs.drop_first(), seq![segs[0].a, segs[0].b], segs[0].b);
        seq![(spec_close(st.0), st.1.len())] + spec_stitch(st.1)
    }
}

#[via_fn]
proof fn spec_stitch_decreases(segs: Seq<Seg>) {
    if segs.len() > 0 {
        lemma_chain_rest_len(segs.drop_first(), seq![segs[0].a, segs[0].b], segs[0].b);
    }
}

/// The ordered loops that stitching a segment list yields.
pub open spec fn spec_loops(segs: Seq<Seg>) -> Seq<LoopModel> {
    spec_stitch(segs).map_values(|t: (LoopModel, nat)| t.0)
}

/// The remaining-segment counts of the loops left open, in loop order.
pub open spec fn spec_open_tails(segs: Seq<Seg>) -> Seq<nat> {
    spec_stitch(segs).filter(|t: (LoopModel, nat)| !t.0.closed).map_values(
        |t: (LoopModel, nat)| t.1,
    )
}

/// Stitching is deterministic: it is a function of the segment list alone,
/// so equal segment lists, in the same order, always yield the same loops
/// and the same open-loop reports.
pub proof fn lemma_stitch_deterministic(s1: Seq<Seg>, s2: Seq<Seg>)
    requires
        s1 == s2,
    ensures
        spec_loops(s1) == spec_loops(s2),
        spec_open_tails(s1) == spec_open_tails(s2),
{
}

/// Membership correctness: every wall edge in a sector's member list has a
/// non-negative side index whose wall face references that sector.
pub proof fn lemma_membership(m: MapDataModel, s: int)
    ensures
        forall|i: int|
            0 <= i < spec_sector_members(m, s).len() ==> spec_linedef_in_sector(
                #[trigger] spec_sector_members(m, s)[i],
                m.sidedefs,
                s,
            ),
{
    broadcast use vstd::seq_lib::group_filter_ensures;

    assert forall|i: int| 0 <= i < spec_sector_members(m, s).len() implies spec_linedef_in_sector(
        #[trigger] spec_sector_members(m, s)[i],
        m.sidedefs,
        s,
    ) by {
        let pred = |ld: LineDef| spec_linedef_in_sector(ld, m.sidedefs, s);
        m.linedefs.lemma_filter_pred(pred, i);
    }
}

/// Stitches a segment list into boundary loops. Returns the loops in
/// construction order together with, for every loop left open, the number of
/// segments that remained when its chain ended.
pub fn stitch_loops(segs: &Vec<Seg>) -> (r: (Vec<PolyLoop>, Vec<usize>))
    ensures
        r.0.deep_view() == spec_loops(segs@),
        r.1@.map_values(|u: usize| u as nat) == spec_open_tails(segs@),
{
    let n = segs.len();
    let mut pending: Vec<Seg> = Vec::new();
    let mut k: usize = 0;
    while k < n
        invariant
            0 <= k <= n,
            n == segs@.len(),
            pending@ =~= segs@.take(k as int),
        decreases n - k,
    {
        pending.push(segs[k]);
        k = k + 1;
    }
    proof {
        assert(pending@ =~= segs@);
    }
    let mut loops: Vec<PolyLoop> = Vec::new();
    let mut tails: Vec<usize> = Vec::new();
    let ghost mut done: Seq<(LoopModel, nat)> = Seq::empty();
    proof {
        reveal(Seq::filter);
        assert(spec_stitch(segs@) =~= done + spec_stitch(pending@));
        assert(loops.deep_view() =~= done.map_values(|t: (LoopModel, nat)| t.0));
        assert(tails@.map_values(|u: usize| u as nat) =~= done.filter(
            |t: (LoopModel, nat)| !t.0.closed,
        ).map_values(|t: (LoopModel, nat)| t.1));
    }
    while pending.len() > 0
        invariant
            spec_stitch(segs@) =~= done + spec_stitch(pending@),
            loops.deep_view() =~= done.map_values(|t: (LoopModel, nat)| t.0),
            tails@.map_values(|u: usize| u as nat) =~= done.filter(
                |t: (LoopModel, nat)| !t.0.closed,
            ).map_values(|t: (LoopModel, nat)| t.1),
        decreases pending@.len(),
    {
        let ghost head = pending@;
        let first = pending.remove(0);
        proof {
            assert(head[0] == first);
            assert(pending@ =~= head.drop_first());
        }
        let mut pts: Vec<Vertex> = Vec::new();
        pts.push(first.a);
        pts.push(first.b);
        let mut cur: Vertex = first.b;
        let ghost target = spec_chain(pending@, seq![first.a, first.b], first.b);
        proof {
            assert(pts@ =~= seq![first.a, first.b]);
        }
        loop
            invariant
                pts@.len() >= 2,
                spec_chain(pending@, pts@, cur) == target,
            ensures
                pts@.len() >= 2,
                target == (pts@, pending@),
            decreases pending@.len(),
        {
            let plen = pending.len();
            let mut found: Option<usize> = None;
            let mut i: usize = 0;
            while i < plen
                invariant_except_break
                    0 <= i <= plen,
                    found is None,
                invariant
                    plen == pending@.len(),
                    found is None ==> spec_first_match(pending@, cur, 0) == spec_first_match(
                        pending@,
                        cur,
                        i as int,
                    ),
                ensures
                    match found {
                        None => spec_first_match(pending@, cur, 0) is None,
                        Some(f) => f < plen && spec_first_match(pending@, cur, 0) == Some(f as int),
                    },
                decreases plen - i,
            {
                let s = pending[i];
                proof {
                    assert(pending@[i as int] == s);
                }
                if s.a == cur || s.b == cur {
                    found = Some(i);
                    break ;
                }
                i = i + 1;
            }
            match found {
                None => {
                    proof {
                        assert(spec_first_match(pending@, cur, 0) is None);
                        assert(spec_chain(pending@, pts@, cur) == (pts@, pending@));
                    }
                    break ;
                },
                Some(f) => {
                    let ghost old_pending = pending@;
                    let ghost old_pts = pts@;
                    let ghost old_cur = cur;
                    let s = pending.remove(f);
                    let nxt = if s.a == cur {
                        s.b
                    } else {
                        s.a
                    };
                    pts.push(nxt);
                    cur = nxt;
                    proof {
                        assert(nxt == seg_other(old_pending[f as int], old_cur));
                        assert(pending@ =~= old_pending.remove(f as int));
                        assert(pts@ =~= old_pts.push(nxt));
                        assert(spec_chain(old_pending, old_pts, old_cur) == spec_chain(
                            pending@,
                            pts@,
                            cur,
                        ));
                    }
                },
            }
        }
        // Close the chain: a chain whose last point returned to its first is
        // a closed loop, stored without the duplicate final point.
        let first_pt = pts[0];
        let last_pt = pts[pts.len() - 1];
        let closed = first_pt == last_pt;
        let ghost chained = pts@;
        if closed {
            pts.pop();
        }
        proof {
            assert(spec_close(chained) == LoopModel { points: pts@, closed });
        }
        let ghost pair = (spec_close(chained), pending@.len() as nat);
        let ghost old_done = done;
        let ghost old_loops = loops.deep_view();
        let ghost old_tails = tails@;
        loops.push(PolyLoop { points: pts, closed });
        if !closed {
            tails.push(pending.len());
        }
        proof {
            reveal(Seq::filter);
            done = old_done.push(pair);
            lemma_chain_rest_len(head.drop_first(), seq![first.a, first.b], first.b);
            assert(spec_stitch(head) == seq![pair] + spec_stitch(pending@));
            assert(done + spec_stitch(pending@) =~= old_done + spec_stitch(head));
            assert(loops.deep_view() =~= old_loops.push(pair.0));
            assert(done.map_values(|t: (LoopModel, nat)| t.0) =~= old_done.map_values(
                |t: (LoopModel, nat)| t.0,
            ).push(pair.0));
            assert(loops.deep_view() =~= done.map_values(|t: (LoopModel, nat)| t.0));
            assert(done.drop_last() =~= old_done);
            assert(done.last() == pair);
            assert(done.filter(|t: (LoopModel, nat)| !t.0.closed) == if !pair.0.closed {
                old_done.filter(|t: (LoopModel, nat)| !t.0.closed).push(pair)
            } else {
                old_done.filter(|t: (LoopModel, nat)| !t.0.closed)
            });
            if !closed {
                assert(tails@ =~= old_tails.push((pending@.len() as usize)));
                assert(tails@.map_values(|u: usize| u as nat) =~= old_tails.map_values(
                    |u: usize| u as nat,
                ).push(pending@.len() as nat));
                assert(done.filter(|t: (LoopModel, nat)| !t.0.closed).map_values(
                    |t: (LoopModel, nat)| t.1,
                ) =~= old_done.filter(|t: (LoopModel, nat)| !t.0.closed).map_values(
                    |t: (LoopModel, nat)| t.1,
                ).push(pair.1));
            } else {
                assert(tails@ == old_tails);
            }
            assert(tails@.map_values(|u: usize| u as nat) =~= done.filter(
                |t: (LoopModel, nat)| !t.0.closed,
            ).map_values(|t: (LoopModel, nat)| t.1));
        }
    }
    proof {
        assert(pending@.len() == 0);
        assert(spec_stitch(pending@) =~= Seq::<(LoopModel, nat)>::empty());
        assert(done =~= spec_stitch(segs@));
        assert(loops.deep_view() =~= spec_loops(segs@));
        assert(tails@.map_values(|u: usize| u as nat) =~= spec_open_tails(segs@));
    }
    (loops, tails)
}

/// A structured report that a sector's chain was left open: the sector and
/// how many of its segments remained when the open chain ended.
#[derive(Clone, Copy, Debug, PartialEq, Eq, Structural)]
pub struct StitchWarning {
    pub sector: usize,
    pub remaining: usize,
}

/// One sector's reconstructed boundary: its fill loops, its stroke segments
/// with one-/two-sided classification, its light level clamped for rendering,
/// and the warnings for chains left open.
#[derive(Debug)]
pub struct SectorBoundary {
    pub loops: Vec<PolyLoop>,
    pub edges: Vec<Seg>,
    pub light: i16,
    pub warnings: Vec<StitchWarning>,
}

/// The stored light level clamped into the renderable range 0 to 255.
pub open spec fn spec_clamp_light(l: i16) -> i16 {
    if l < 0 {
        0i16
    } else if l > 255 {
        255i16
    } else {
        l
    }
}

/// The open-chain warnings of a sector's segment set, in loop order.
pub open spec fn spec_warnings(segs: Seq<Seg>, sector: usize) -> Seq<StitchWarning> {
    spec_open_tails(segs).map_values(
        |t: nat| StitchWarning { sector, remaining: t as usize },
    )
}

/// Reconstructs one sector's boundary: the member wall edges are collected
/// and materialized under the map's bounds, stitched into loops, and the
/// sector's light level is clamped for rendering. Fails when a wall edge's
/// side or vertex index reaches outside its list, naming the first such edge;
/// an open chain is a warning in the output, never an error.
pub fn sector_boundary(map: &MapData, sector_index: usize, bounds: &MapBounds) -> (r: Result<
    SectorBoundary,
    WadError,
>)
    requires
        sector_index < map@.sectors.len(),
        spec_bounds_contain(map@, *bounds),
    ensures
        r is Ok <==> (spec_first_bad_side(map@.linedefs, map@.sidedefs.len() as int, 0) is None
            && spec_first_bad_vertex(map@.linedefs, map@.vertexes.len() as int, 0) is None),
        r is Ok ==> {
            let segs = spec_sector_segments(map@, sector_index as int, *bounds);
            &&& r->Ok_0.edges@ == segs
            &&& r->Ok_0.loops.deep_view() == spec_loops(segs)
            &&& r->Ok_0.warnings@ == spec_warnings(segs, sector_index)
            &&& r->Ok_0.light == spec_clamp_light(map@.sectors[sector_index as int].light_level)
        },
        r is Err ==> match spec_first_bad_side(map@.linedefs, map@.sidedefs.len() as int, 0) {
            Some(j) => r->Err_0@ == WadErrorModel::FormatError(
                FormatIssueModel::BadIndex { lump: "LINEDEFS"@, record: j as usize },
            ),
            None => spec_first_bad_vertex(map@.linedefs, map@.vertexes.len() as int, 0) matches Some(
                j,
            ) && r->Err_0@ == WadErrorModel::FormatError(
                FormatIssueModel::BadIndex { lump: "LINEDEFS"@, record: j as usize },
            ),
        },
{
    let members = match sector_linedefs(map, sector_index) {
        Ok(m) => m,
        Err(e) => {
            return Err(e);
        },
    };
    match check_vertex_refs(map) {
        Ok(()) => {},
        Err(e) => {
            return Err(e);
        },
    }
    let edges = materialize_segments(map, &members, bounds);
    let (loops, tails) = stitch_loops(&edges);
    proof {
        assert(map@.sectors[sector_index as int] == map.sectors@[sector_index as int]@);
    }
    let stored = map.sectors[sector_index].light_level;
    let light = if stored < 0 {
        0i16
    } else if stored > 255 {
        255i16
    } else {
        stored
    };
    let mut warnings: Vec<StitchWarning> = Vec::new();
    let tn = tails.len();
    let mut i: usize = 0;
    while i < tn
        invariant
            0 <= i <= tn,
            tn == tails@.len(),
            warnings@ =~= tails@.take(i as int).map_values(
                |u: usize| StitchWarning { sector: sector_index, remaining: u },
            ),
        decreases tn - i,
    {
        warnings.push(StitchWarning { sector: sector_index, remaining: tails[i] });
        proof {
            assert(warnings@ =~= tails@.take(i as int + 1).map_values(
                |u: usize| StitchWarning { sector: sector_index, remaining: u },
            ));
        }
        i = i + 1;
    }
    proof {
        assert(tails@.take(tn as int) =~= tails@);
        let segs = spec_sector_segments(map@, sector_index as int, *bounds);
        assert(edges@ == segs);
        assert(warnings@ =~= spec_warnings(segs, sector_index));
    }
    Ok(SectorBoundary { loops, edges, light, warnings })
}

/// Reconstructs every sector's boundary of one map, all under the same map
/// bounds, together with those bounds (the map's pixel bounding box). Fails
/// when a wall edge's vertex or side index reaches outside its list.
pub fn map_boundaries(map: &MapData) -> (r: Result<(MapBounds, Vec<SectorBoundary>), WadError>)
    requires
        map@.linedefs.len() > 0,
    ensures
        r is Ok <==> (spec_first_bad_vertex(map@.linedefs, map@.vertexes.len() as int, 0) is None
            && (map@.sectors.len() == 0 || spec_first_bad_side(
            map@.linedefs,
            map@.sidedefs.len() as int,
            0,
        ) is None)),
        r is Ok ==> {
            let b = r->Ok_0.0;
            &&& spec_bounds_contain(map@, b)
            &&& spec_bounds_tight(map@, b)
            &&& r->Ok_0.1@.len() == map@.sectors.len()
            &&& forall|s: int|
                0 <= s < map@.sectors.len() ==> {
                    let sb = #[trigger] r->Ok_0.1@[s];
                    let segs = spec_sector_segments(map@, s, b);
                    &&& sb.edges@ == segs
                    &&& sb.loops.deep_view() == spec_loops(segs)
                    &&& sb.warnings@ == spec_warnings(segs, s as usize)
                    &&& sb.light == spec_clamp_light(map@.sectors[s].light_level)
                }
        },
        r is Err ==> match spec_first_bad_vertex(map@.linedefs, map@.vertexes.len() as int, 0) {
            Some(j) => r->Err_0@ == WadErrorModel::FormatError(
                FormatIssueModel::BadIndex { lump: "LINEDEFS"@, record: j as usize },
            ),
            None => spec_first_bad_side(map@.linedefs, map@.sidedefs.len() as int, 0) matches Some(
                j,
            ) && r->Err_0@ == WadErrorModel::FormatError(
                FormatIssueModel::BadIndex { lump: "LINEDEFS"@, record: j as usize },
            ),
        },
{
    let bounds = match map_bounds(map) {
        Ok(b) => b,
        Err(e) => {
            return Err(e);
        },
    };
    let n = map.sectors.len();
    let mut sectors: Vec<SectorBoundary> = Vec::new();
    let mut s: usize = 0;
    while s < n
        invariant
            0 <= s <= n,
            n == map@.sectors.len(),
            n == map.sectors@.len(),
            spec_first_bad_vertex(map@.linedefs, map@.vertexes.len() as int, 0) is None,
            s > 0 ==> spec_first_bad_side(map@.linedefs, map@.sidedefs.len() as int, 0) is None,
            spec_bounds_contain(map@, bounds),
            spec_bounds_tight(map@, bounds),
            sectors@.len() == s,
            forall|t: int|
                0 <= t < s ==> {
                    let sb = #[trigger] sectors@[t];
                    let segs = spec_sector_segments(map@, t, bounds);
                    &&& sb.edges@ == segs
                    &&& sb.loops.deep_view() == spec_loops(segs)
                    &&& sb.warnings@ == spec_warnings(segs, t as usize)
                    &&& sb.light == spec_clamp_light(map@.sectors[t].light_level)
                },
        decreases n - s,
    {
        match sector_boundary(map, s, &bounds) {
            Ok(sb) => {
                sectors.push(sb);
            },
            Err(e) => {
                // A side-index error is the only error left once the map's
                // vertex references have been checked by the bounds pass.
                return Err(e);
            },
        }
        s = s + 1;
    }
    Ok((bounds, sectors))
}

} // verus!
