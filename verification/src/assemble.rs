//! Grouping directory entries into per-map record bundles.
//!
//! The directory encodes one marker entry per map: an entry with size zero
//! and a positive offset. The entries immediately following a marker, as long
//! as their names belong to the recognized lump-name set, form that map's
//! lump run; the first entry with an unrecognized name ends the run and is
//! examined again as a possible next marker. A later marker with the same
//! name replaces the earlier map, and the collected maps are sorted by name
//! for deterministic output order.

use vstd::multiset::Multiset;
use vstd::prelude::*;

use crate::errors::WadError;
use crate::errors::WadErrorModel;
use crate::lumps::decode_linedefs;
use crate::lumps::decode_sectors;
use crate::lumps::decode_sidedefs;
use crate::lumps::decode_things;
use crate::lumps::decode_vertexes;
use crate::lumps::spec_decode_linedefs;
use crate::lumps::spec_decode_sectors;
use crate::lumps::spec_decode_sidedefs;
use crate::lumps::spec_decode_things;
use crate::lumps::spec_decode_vertexes;
use crate::name::str_eq;
use crate::directory::spec_decode_directory;
use crate::directory::spec_decode_header;
use crate::records::DirectoryEntry;
use crate::records::DirectoryEntryModel;
use crate::records::LineDef;
use crate::records::MapData;
use crate::records::MapDataModel;
use crate::records::SectorModel;
use crate::records::SideDefModel;
use crate::records::Thing;
use crate::records::Vertex;
use crate::records::Wad;
use crate::records::WadType;

verus! {

/// The closed set of lump names recognized as belonging to a map.
pub open spec fn spec_is_map_lump_name(s: Seq<char>) -> bool {
    ||| s == "BLOCKMAP"@
    ||| s == "LINEDEFS"@
    ||| s == "NODES"@
    ||| s == "REJECT"@
    ||| s == "SCRIPTS"@
    ||| s == "SECTORS"@
    ||| s == "SEGS"@
    ||| s == "SIDEDEFS"@
    ||| s == "SSECTORS"@
    ||| s == "THINGS"@
    ||| s == "VERTEXES"@
}

/// Decides membership in the recognized lump-name set.
pub fn is_map_lump_name(name: &str) -> (r: bool)
    ensures
        r == spec_is_map_lump_name(name@),
{
    str_eq(name, "BLOCKMAP") || str_eq(name, "LINEDEFS") || str_eq(name, "NODES") || str_eq(
        name,
        "REJECT",
    ) || str_eq(name, "SCRIPTS") || str_eq(name, "SECTORS") || str_eq(name, "SEGS") || str_eq(
        name,
        "SIDEDEFS",
    ) || str_eq(name, "SSECTORS") || str_eq(name, "THINGS") || str_eq(name, "VERTEXES")
}

/// A marker entry announces a map: it carries no data but has a positive
/// offset.
pub open spec fn spec_is_marker(e: DirectoryEntryModel) -> bool {
    e.size == 0 && e.offset > 0
}

/// One map's marker name together with its run of lump entries.
pub struct MapRun {
    pub name: Seq<char>,
    pub lumps: Seq<DirectoryEntryModel>,
}

/// The index just past the run of recognized lump names starting at `j`.
pub open spec fn spec_run_end(dir: Seq<DirectoryEntryModel>, j: int) -> int
    decreases dir.len() - j,
{
    if j < 0 || j >= dir.len() {
        j
    } else if !spec_is_map_lump_name(dir[j].name) {
        j
    } else {
        spec_run_end(dir, j + 1)
    }
}

/// The run end lies between its start and the directory's end, everything in
/// the run is a recognized lump name, and the entry at the run end (if any)
/// is not.
pub proof fn lemma_run_end(dir: Seq<DirectoryEntryModel>, j: int)
    requires
        0 <= j <= dir.len(),
    ensures
        j <= spec_run_end(dir, j) <= dir.len(),
        forall|k: int|
            j <= k < spec_run_end(dir, j) ==> spec_is_map_lump_name(#[trigger] dir[k].name),
        spec_run_end(dir, j) < dir.len() ==> !spec_is_map_lump_name(dir[spec_run_end(dir, j)].name),
    decreases dir.len() - j,
{
    if j < dir.len() && spec_is_map_lump_name(dir[j].name) {
        lemma_run_end(dir, j + 1);
    }
}

/// Any index with the run end's properties is the run end.
pub proof fn lemma_run_end_unique(dir: Seq<DirectoryEntryModel>, j: int, e: int)
    requires
        0 <= j <= e <= dir.len(),
        forall|k: int| j <= k < e ==> spec_is_map_lump_name(#[trigger] dir[k].name),
        e < dir.len() ==> !spec_is_map_lump_name(dir[e].name),
    ensures
        spec_run_end(dir, j) == e,
{
    lemma_run_end(dir, j);
    let r = spec_run_end(dir, j);
    if r < e {
        assert(spec_is_map_lump_name(dir[r].name));
    } else if e < r {
        assert(spec_is_map_lump_name(dir[e].name));
    }
}

/// Scans the directory from index `i`, collecting each marker with its lump
/// run; the cursor resumes at each run's end.
pub open spec fn spec_collect_runs(dir: Seq<DirectoryEntryModel>, i: int) -> Seq<MapRun>
    decreases dir.len() - i,
    via spec_collect_runs_decreases
{
    if i < 0 || i >= dir.len() {
        Seq::empty()
    } else if spec_is_marker(dir[i]) {
        seq![MapRun { name: dir[i].name, lumps: dir.subrange(i + 1, spec_run_end(dir, i + 1)) }]
            + spec_collect_runs(dir, spec_run_end(dir, i + 1))
    } else {
        spec_collect_runs(dir, i + 1)
    }
}

#[via_fn]
proof fn spec_collect_runs_decreases(dir: Seq<DirectoryEntryModel>, i: int) {
    if 0 <= i < dir.len() && spec_is_marker(dir[i]) {
        lemma_run_end(dir, i + 1);
    }
}

/// The position of the last run with the given name, if any.
pub open spec fn spec_find_run(runs: Seq<MapRun>, name: Seq<char>) -> Option<int>
    decreases runs.len(),
{
    if runs.len() == 0 {
        None
    } else if runs.last().name == name {
        Some(runs.len() - 1)
    } else {
        spec_find_run(runs.drop_last(), name)
    }
}

/// What [`spec_find_run`] finds is the last run carrying the name.
pub proof fn lemma_find_run(runs: Seq<MapRun>, name: Seq<char>)
    ensures
        match spec_find_run(runs, name) {
            None => forall|j: int| 0 <= j < runs.len() ==> (#[trigger] runs[j].name) != name,
            Some(i) => 0 <= i < runs.len() && runs[i].name == name && forall|j: int|
                i < j < runs.len() ==> (#[trigger] runs[j].name) != name,
        },
    decreases runs.len(),
{
    if runs.len() > 0 && runs.last().name != name {
        lemma_find_run(runs.drop_last(), name);
        assert(forall|j: int|
            0 <= j < runs.len() - 1 ==> runs.drop_last()[j] == #[trigger] runs[j]);
    }
}

/// Keeps, for every marker name, the lump run of its last marker: a later
/// run replaces the earlier run with its name, and a new name is appended.
pub open spec fn spec_dedup_runs(runs: Seq<MapRun>) -> Seq<MapRun>
    decreases runs.len(),
{
    if runs.len() == 0 {
        Seq::empty()
    } else {
        let prev = spec_dedup_runs(runs.drop_last());
        let last = runs.last();
        match spec_find_run(prev, last.name) {
            Some(i) => prev.update(i, last),
            None => prev.push(last),
        }
    }
}

/// The wall-edge records of a run, taken from the last entry so named; a run
/// without one decodes to an empty vector.
pub open spec fn spec_map_linedefs(data: Seq<u8>, lumps: Seq<DirectoryEntryModel>) -> Result<
    Seq<LineDef>,
    WadErrorModel,
> {
    match spec_find_lump(lumps, "LINEDEFS"@) {
        None => Ok(Seq::empty()),
        Some(i) => spec_decode_linedefs(data, lumps[i]),
    }
}

/// The entity-placement records of a run; absent lump decodes to empty.
pub open spec fn spec_map_things(data: Seq<u8>, lumps: Seq<DirectoryEntryModel>) -> Result<
    Seq<Thing>,
    WadErrorModel,
> {
    match spec_find_lump(lumps, "THINGS"@) {
        None => Ok(Seq::empty()),
        Some(i) => spec_decode_things(data, lumps[i]),
    }
}

/// The vertex records of a run; absent lump decodes to empty.
pub open spec fn spec_map_vertexes(data: Seq<u8>, lumps: Seq<DirectoryEntryModel>) -> Result<
    Seq<Vertex>,
    WadErrorModel,
> {
    match spec_find_lump(lumps, "VERTEXES"@) {
        None => Ok(Seq::empty()),
        Some(i) => spec_decode_vertexes(data, lumps[i]),
    }
}

/// The wall-face records of a run; absent lump decodes to empty.
pub open spec fn spec_map_sidedefs(data: Seq<u8>, lumps: Seq<DirectoryEntryModel>) -> Result<
    Seq<SideDefModel>,
    WadErrorModel,
> {
    match spec_find_lump(lumps, "SIDEDEFS"@) {
        None => Ok(Seq::empty()),
        Some(i) => spec_decode_sidedefs(data, lumps[i]),
    }
}

/// The room records of a run; absent lump decodes to empty.
pub open spec fn spec_map_sectors(data: Seq<u8>, lumps: Seq<DirectoryEntryModel>) -> Result<
    Seq<SectorModel>,
    WadErrorModel,
> {
    match spec_find_lump(lumps, "SECTORS"@) {
        None => Ok(Seq::empty()),
        Some(i) => spec_decode_sectors(data, lumps[i]),
    }
}

/// The position of the last entry with the given name in a lump run, if any.
pub open spec fn spec_find_lump(lumps: Seq<DirectoryEntryModel>, name: Seq<char>) -> Option<int>
    decreases lumps.len(),
{
    if lumps.len() == 0 {
        None
    } else if lumps.last().name == name {
        Some(lumps.len() - 1)
    } else {
        spec_find_lump(lumps.drop_last(), name)
    }
}

/// What [`spec_find_lump`] finds is the last entry carrying the name.
pub proof fn lemma_find_lump(lumps: Seq<DirectoryEntryModel>, name: Seq<char>)
    ensures
        match spec_find_lump(lumps, name) {
            None => forall|j: int| 0 <= j < lumps.len() ==> (#[trigger] lumps[j].name) != name,
            Some(i) => 0 <= i < lumps.len() && lumps[i].name == name && forall|j: int|
                i < j < lumps.len() ==> (#[trigger] lumps[j].name) != name,
        },
    decreases lumps.len(),
{
    if lumps.len() > 0 && lumps.last().name != name {
        lemma_find_lump(lumps.drop_last(), name);
        assert(forall|j: int|
            0 <= j < lumps.len() - 1 ==> lumps.drop_last()[j] == #[trigger] lumps[j]);
    }
}

/// Finds the last entry with the given name in a lump run.
fn find_lump(lumps: &[DirectoryEntry], name: &str) -> (r: Option<usize>)
    ensures
        r is Some <==> spec_find_lump(lumps.deep_view(), name@) is Some,
        r is Some ==> spec_find_lump(lumps.deep_view(), name@) == Some(r->0 as int),
        r is Some ==> r->0 < lumps.deep_view().len(),
{
    let n = lumps.len();
    let mut found: Option<usize> = None;
    let mut i: usize = 0;
    while i < n
        invariant
            0 <= i <= n,
            n == lumps.deep_view().len(),
            match found {
                None => forall|j: int|
                    0 <= j < i ==> (#[trigger] lumps.deep_view()[j].name) != name@,
                Some(f) => 0 <= f < i && lumps.deep_view()[f as int].name == name@ && forall|j: int|
                    f < j < i ==> (#[trigger] lumps.deep_view()[j].name) != name@,
            },
        decreases n - i,
    {
        let entry = &lumps[i];
        if str_eq(entry.name.as_str(), name) {
            found = Some(i);
        }
        i = i + 1;
    }
    proof {
        lemma_find_lump(lumps.deep_view(), name@);
    }
    found
}

/// Decodes one map's records out of its lump run: each recognized record
/// lump is decoded from its last entry in the run, and a lump type with no
/// entry yields an empty vector. Fails with the first lump that cannot be
/// decoded, in the order wall edges, entities, vertices, wall faces, rooms.
pub open spec fn spec_decode_map(data: Seq<u8>, run: MapRun) -> Result<
    MapDataModel,
    WadErrorModel,
> {
    match spec_map_linedefs(data, run.lumps) {
        Err(e) => Err(e),
        Ok(linedefs) => match spec_map_things(data, run.lumps) {
            Err(e) => Err(e),
            Ok(things) => match spec_map_vertexes(data, run.lumps) {
                Err(e) => Err(e),
                Ok(vertexes) => match spec_map_sidedefs(data, run.lumps) {
                    Err(e) => Err(e),
                    Ok(sidedefs) => match spec_map_sectors(data, run.lumps) {
                        Err(e) => Err(e),
                        Ok(sectors) => Ok(
                            MapDataModel {
                                name: run.name,
                                linedefs,
                                sectors,
                                sidedefs,
                                things,
                                vertexes,
                            },
                        ),
                    },
                },
            },
        },
    }
}

/// Decodes one map's records out of its lump run.
fn decode_map(data: &[u8], name: String, lumps: &[DirectoryEntry]) -> (r: Result<
    MapData,
    WadError,
>)
    ensures
        r is Ok <==> spec_decode_map(
            data@,
            MapRun { name: name@, lumps: lumps.deep_view() },
        ) is Ok,
        r is Ok ==> spec_decode_map(data@, MapRun { name: name@, lumps: lumps.deep_view() })
            == Ok::<MapDataModel, WadErrorModel>(r->Ok_0@),
        r is Err ==> spec_decode_map(data@, MapRun { name: name@, lumps: lumps.deep_view() })
            == Err::<MapDataModel, WadErrorModel>(r->Err_0@),
{
    let ghost lv = lumps.deep_view();
    let linedefs: Vec<LineDef> = match find_lump(lumps, "LINEDEFS") {
        None => Vec::new(),
        Some(i) => {
            proof {
                assert(lv[i as int] == lumps@[i as int]@);
            }
            match decode_linedefs(data, &lumps[i]) {
                Ok(v) => v,
                Err(e) => {
                    return Err(e);
                },
            }
        },
    };
    proof {
        assert(spec_map_linedefs(data@, lv) == Ok::<Seq<LineDef>, WadErrorModel>(linedefs@));
    }
    let things: Vec<Thing> = match find_lump(lumps, "THINGS") {
        None => Vec::new(),
        Some(i) => {
            proof {
                assert(lv[i as int] == lumps@[i as int]@);
            }
            match decode_things(data, &lumps[i]) {
                Ok(v) => v,
                Err(e) => {
                    return Err(e);
                },
            }
        },
    };
    proof {
        assert(spec_map_things(data@, lv) == Ok::<Seq<Thing>, WadErrorModel>(things@));
    }
    let vertexes: Vec<Vertex> = match find_lump(lumps, "VERTEXES") {
        None => Vec::new(),
        Some(i) => {
            proof {
                assert(lv[i as int] == lumps@[i as int]@);
            }
            match decode_vertexes(data, &lumps[i]) {
                Ok(v) => v,
                Err(e) => {
                    return Err(e);
                },
            }
        },
    };
    proof {
        assert(spec_map_vertexes(data@, lv) == Ok::<Seq<Vertex>, WadErrorModel>(vertexes@));
    }
    let sidedefs: Vec<crate::records::SideDef> = match find_lump(lumps, "SIDEDEFS") {
        None => Vec::new(),
        Some(i) => {
            proof {
                assert(lv[i as int] == lumps@[i as int]@);
            }
            match decode_sidedefs(data, &lumps[i]) {
                Ok(v) => v,
                Err(e) => {
                    return Err(e);
                },
            }
        },
    };
    proof {
        assert(sidedefs.deep_view() =~= sidedefs.deep_view());
        assert(spec_map_sidedefs(data@, lv) == Ok::<Seq<SideDefModel>, WadErrorModel>(
            sidedefs.deep_view(),
        )) by {
            if spec_find_lump(lv, "SIDEDEFS"@) is None {
                assert(sidedefs.deep_view() =~= Seq::<SideDefModel>::empty());
            }
        }
    }
    let sectors: Vec<crate::records::Sector> = match find_lump(lumps, "SECTORS") {
        None => Vec::new(),
        Some(i) => {
            proof {
                assert(lv[i as int] == lumps@[i as int]@);
            }
            match decode_sectors(data, &lumps[i]) {
                Ok(v) => v,
                Err(e) => {
                    return Err(e);
                },
            }
        },
    };
    proof {
        assert(spec_map_sectors(data@, lv) == Ok::<Seq<SectorModel>, WadErrorModel>(
            sectors.deep_view(),
        )) by {
            if spec_find_lump(lv, "SECTORS"@) is None {
                assert(sectors.deep_view() =~= Seq::<SectorModel>::empty());
            }
        }
    }
    let map = MapData { name, linedefs, sectors, sidedefs, things, vertexes };
    proof {
        assert(map@.sectors =~= map.sectors.deep_view());
        assert(map@.sidedefs =~= map.sidedefs.deep_view());
    }
    Ok(map)
}

/// One collected lump run: the map's name and the half-open index range of
/// its lump entries within the directory.
struct LumpRun {
    name: String,
    start: usize,
    end: usize,
}

/// The [`MapRun`] a collected [`LumpRun`] stands for, within a directory.
spec fn run_model(dirv: Seq<DirectoryEntryModel>, r: LumpRun) -> MapRun {
    MapRun { name: r.name@, lumps: dirv.subrange(r.start as int, r.end as int) }
}

/// The [`MapRun`]s a collected run list stands for.
spec fn runs_models(dirv: Seq<DirectoryEntryModel>, rs: Seq<LumpRun>) -> Seq<MapRun> {
    rs.map_values(|r: LumpRun| run_model(dirv, r))
}

/// A collected run's index range lies inside the directory.
spec fn runs_in_bounds(rs: Seq<LumpRun>, n: int) -> bool {
    forall|a: int| 0 <= a < rs.len() ==> (#[trigger] rs[a]).start <= rs[a].end <= n
}

/// Scans the directory with a cursor, collecting every marker entry together
/// with the run of recognized lump names that follows it.
fn collect_runs(directory: &Vec<DirectoryEntry>) -> (r: Vec<LumpRun>)
    ensures
        runs_models(directory.deep_view(), r@) == spec_collect_runs(directory.deep_view(), 0),
        runs_in_bounds(r@, directory@.len() as int),
{
    let ghost dirv = directory.deep_view();
    let n = directory.len();
    let mut runs: Vec<LumpRun> = Vec::new();
    let mut i: usize = 0;
    proof {
        assert(runs_models(dirv, runs@) =~= Seq::<MapRun>::empty());
    }
    while i < n
        invariant
            0 <= i <= n,
            n == dirv.len(),
            dirv == directory.deep_view(),
            n == directory@.len(),
            spec_collect_runs(dirv, 0) =~= runs_models(dirv, runs@) + spec_collect_runs(
                dirv,
                i as int,
            ),
            runs_in_bounds(runs@, n as int),
        decreases n - i,
    {
        proof {
            assert(dirv[i as int] == directory@[i as int]@);
        }
        let marker = directory[i].size == 0 && directory[i].offset > 0;
        if marker {
            let start = i + 1;
            let mut j = start;
            while j < n && is_map_lump_name(directory[j].name.as_str())
                invariant
                    start <= j <= n,
                    n == dirv.len(),
                    dirv == directory.deep_view(),
                    n == directory@.len(),
                    forall|k: int|
                        start <= k < j ==> spec_is_map_lump_name(#[trigger] dirv[k].name),
                decreases n - j,
            {
                proof {
                    assert(dirv[j as int] == directory@[j as int]@);
                }
                j = j + 1;
            }
            proof {
                if j < n {
                    assert(dirv[j as int] == directory@[j as int]@);
                }
                lemma_run_end_unique(dirv, start as int, j as int);
            }
            let run = LumpRun { name: directory[i].name.clone(), start, end: j };
            let ghost pre = runs@;
            runs.push(run);
            proof {
                let mr = MapRun {
                    name: dirv[i as int].name,
                    lumps: dirv.subrange(i as int + 1, spec_run_end(dirv, i as int + 1)),
                };
                assert(run_model(dirv, run) == mr);
                assert(runs_models(dirv, runs@) =~= runs_models(dirv, pre).push(mr));
                assert(spec_collect_runs(dirv, i as int) == seq![mr] + spec_collect_runs(
                    dirv,
                    j as int,
                ));
                assert(runs_models(dirv, pre) + spec_collect_runs(dirv, i as int) =~= runs_models(
                    dirv,
                    runs@,
                ) + spec_collect_runs(dirv, j as int));
            }
            i = j;
        } else {
            proof {
                assert(spec_collect_runs(dirv, i as int) == spec_collect_runs(dirv, i as int + 1));
            }
            i = i + 1;
        }
    }
    proof {
        assert(spec_collect_runs(dirv, i as int) =~= Seq::<MapRun>::empty());
        assert(runs_models(dirv, runs@) =~= runs_models(dirv, runs@) + Seq::<MapRun>::empty());
    }
    runs
}

/// All run names in a list are distinct.
spec fn runs_names_distinct(rs: Seq<MapRun>) -> bool {
    forall|a: int, b: int|
        0 <= a < b < rs.len() ==> (#[trigger] rs[a].name) != (#[trigger] rs[b].name)
}

/// Keeps, for every marker name, the run of its last marker.
fn dedup_runs(directory: &Vec<DirectoryEntry>, runs: Vec<LumpRun>) -> (r: Vec<LumpRun>)
    requires
        runs_in_bounds(runs@, directory@.len() as int),
    ensures
        runs_models(directory.deep_view(), r@) == spec_dedup_runs(
            runs_models(directory.deep_view(), runs@),
        ),
        runs_in_bounds(r@, directory@.len() as int),
        runs_names_distinct(runs_models(directory.deep_view(), r@)),
{
    let ghost dirv = directory.deep_view();
    let ghost all = runs_models(dirv, runs@);
    let n = runs.len();
    let mut acc: Vec<LumpRun> = Vec::new();
    let mut idx: usize = 0;
    proof {
        assert(runs_models(dirv, acc@) =~= Seq::<MapRun>::empty());
        assert(runs_models(dirv, runs@.take(0)) =~= Seq::<MapRun>::empty());
        assert(spec_dedup_runs(runs_models(dirv, runs@.take(0))) =~= Seq::<MapRun>::empty());
    }
    while idx < n
        invariant
            0 <= idx <= n,
            n == runs@.len(),
            dirv == directory.deep_view(),
            runs_in_bounds(runs@, directory@.len() as int),
            runs_in_bounds(acc@, directory@.len() as int),
            runs_models(dirv, acc@) == spec_dedup_runs(runs_models(dirv, runs@.take(idx as int))),
            runs_names_distinct(runs_models(dirv, acc@)),
        decreases n - idx,
    {
        let ghost accm = runs_models(dirv, acc@);
        let ghost prefix = runs_models(dirv, runs@.take(idx as int));
        let name_now: String = runs[idx].name.clone();
        let start_now = runs[idx].start;
        let end_now = runs[idx].end;
        let ghost cur = run_model(dirv, runs@[idx as int]);
        // Find an earlier run with the same marker name.
        let mut found: Option<usize> = None;
        let mut f: usize = 0;
        let acc_len = acc.len();
        while f < acc_len
            invariant
                0 <= f <= acc_len,
                acc_len == acc@.len(),
                dirv == directory.deep_view(),
                name_now@ == cur.name,
                found is None ==> forall|j: int|
                    0 <= j < f ==> (#[trigger] runs_models(dirv, acc@)[j].name) != cur.name,
                found matches Some(p) ==> 0 <= p < f && runs_models(dirv, acc@)[p as int].name
                    == cur.name,
            decreases acc_len - f,
        {
            if found.is_none() && str_eq(acc[f].name.as_str(), name_now.as_str()) {
                proof {
                    assert(runs_models(dirv, acc@)[f as int].name == acc@[f as int].name@);
                }
                found = Some(f);
            }
            proof {
                assert(runs_models(dirv, acc@)[f as int].name == acc@[f as int].name@);
            }
            f = f + 1;
        }
        let run = LumpRun { name: name_now, start: start_now, end: end_now };
        match found {
            Some(p) => {
                let ghost target = spec_find_run(accm, cur.name);
                proof {
                    lemma_find_run(accm, cur.name);
                    assert(target == Some(p as int));
                }
                acc.remove(p);
                acc.insert(p, run);
                proof {
                    assert(runs_models(dirv, acc@) =~= accm.update(p as int, cur));
                }
            },
            None => {
                proof {
                    lemma_find_run(accm, cur.name);
                }
                acc.push(run);
                proof {
                    assert(runs_models(dirv, acc@) =~= accm.push(cur));
                }
            },
        }
        proof {
            assert(runs@.take(idx as int + 1).drop_last() =~= runs@.take(idx as int));
            assert(runs_models(dirv, runs@.take(idx as int + 1)).drop_last() =~= prefix);
            assert(runs_models(dirv, runs@.take(idx as int + 1)).last() == cur);
            assert(spec_dedup_runs(runs_models(dirv, runs@.take(idx as int + 1)))
                == runs_models(dirv, acc@));
        }
        idx = idx + 1;
    }
    proof {
        assert(runs@.take(n as int) =~= runs@);
    }
    acc
}

/// Decodes the maps of runs `i` onward, stopping at the first map whose lumps
/// cannot be decoded.
pub open spec fn spec_maps_from(data: Seq<u8>, runs: Seq<MapRun>, i: int) -> Result<
    Seq<MapDataModel>,
    WadErrorModel,
>
    decreases runs.len() - i,
{
    if i < 0 || i >= runs.len() {
        Ok(Seq::empty())
    } else {
        match spec_decode_map(data, runs[i]) {
            Err(e) => Err(e),
            Ok(m) => match spec_maps_from(data, runs, i + 1) {
                Ok(rest) => Ok(seq![m] + rest),
                Err(e) => Err(e),
            },
        }
    }
}

/// When every run decodes, the tail decodes to exactly those maps in order.
proof fn lemma_maps_from_ok(data: Seq<u8>, runs: Seq<MapRun>, i: int)
    requires
        0 <= i,
        forall|j: int| i <= j < runs.len() ==> #[trigger] spec_decode_map(data, runs[j]) is Ok,
    ensures
        spec_maps_from(data, runs, i) is Ok,
        spec_maps_from(data, runs, i)->Ok_0 =~= Seq::new(
            (if runs.len() >= i {
                (runs.len() - i) as nat
            } else {
                0nat
            }),
            |k: int| spec_decode_map(data, runs[i + k])->Ok_0,
        ),
    decreases runs.len() - i,
{
    if i < runs.len() {
        lemma_maps_from_ok(data, runs, i + 1);
    }
}

/// The first failing run decides the whole decode's failure.
proof fn lemma_maps_from_err(data: Seq<u8>, runs: Seq<MapRun>, i: int, j: int)
    requires
        0 <= i <= j < runs.len(),
        forall|k: int| i <= k < j ==> #[trigger] spec_decode_map(data, runs[k]) is Ok,
        spec_decode_map(data, runs[j]) is Err,
    ensures
        spec_maps_from(data, runs, i) == Err::<Seq<MapDataModel>, WadErrorModel>(
            spec_decode_map(data, runs[j])->Err_0,
        ),
    decreases runs.len() - i,
{
    if i < j {
        lemma_maps_from_err(data, runs, i + 1, j);
    }
}

/// The maps that a directory's runs decode to, before sorting: every marker's
/// last run, decoded in collection order, stopping at the first failure.
pub open spec fn spec_assemble_maps(data: Seq<u8>, dirv: Seq<DirectoryEntryModel>) -> Result<
    Seq<MapDataModel>,
    WadErrorModel,
> {
    spec_maps_from(data, spec_dedup_runs(spec_collect_runs(dirv, 0)), 0)
}

/// No two maps in the list carry the same name.
pub open spec fn maps_names_distinct(ms: Seq<MapDataModel>) -> bool {
    forall|a: int, b: int|
        0 <= a < b < ms.len() ==> (#[trigger] ms[a].name) != (#[trigger] ms[b].name)
}

/// Maps listed in lexicographically non-decreasing name order.
pub open spec fn maps_sorted_by_name(ms: Seq<MapDataModel>) -> bool {
    forall|a: int, b: int|
        0 <= a < b < ms.len() ==> crate::name::lex_le(
            (#[trigger] ms[a]).name,
            (#[trigger] ms[b]).name,
        )
}

/// Sorts maps by name with an explicit selection sort: the result is a
/// permutation of the input, in non-decreasing name order.
fn sort_maps(maps: Vec<MapData>) -> (r: Vec<MapData>)
    ensures
        maps_sorted_by_name(r.deep_view()),
        r.deep_view().to_multiset() == maps.deep_view().to_multiset(),
{
    broadcast use vstd::seq_lib::group_to_multiset_ensures;
    broadcast use vstd::multiset::group_multiset_axioms;

    let ghost orig = maps.deep_view().to_multiset();
    let mut rest = maps;
    let mut out: Vec<MapData> = Vec::new();
    proof {
        assert(out.deep_view() =~= Seq::<MapDataModel>::empty());
        assert(out.deep_view().to_multiset().add(rest.deep_view().to_multiset()) =~= orig);
    }
    while rest.len() > 0
        invariant
            out.deep_view().to_multiset().add(rest.deep_view().to_multiset()) == orig,
            maps_sorted_by_name(out.deep_view()),
            forall|a: int, b: int|
                0 <= a < out.deep_view().len() && 0 <= b < rest.deep_view().len()
                    ==> crate::name::lex_le(
                    (#[trigger] out.deep_view()[a]).name,
                    (#[trigger] rest.deep_view()[b]).name,
                ),
        decreases rest.len(),
    {
        let mut min: usize = 0;
        let mut k: usize = 1;
        let rest_len = rest.len();
        proof {
            let nm = rest.deep_view()[0].name;
            if crate::name::lex_lt(nm, nm) {
                crate::name::lemma_lex_lt_asymmetric(nm, nm);
            }
        }
        while k < rest_len
            invariant
                0 <= min < k <= rest_len,
                rest_len == rest@.len(),
                forall|j: int|
                    0 <= j < k ==> crate::name::lex_le(
                        rest.deep_view()[min as int].name,
                        (#[trigger] rest.deep_view()[j]).name,
                    ),
            decreases rest_len - k,
        {
            proof {
                assert(rest.deep_view()[k as int].name == rest@[k as int]@.name);
                assert(rest.deep_view()[min as int].name == rest@[min as int]@.name);
                let nm = rest.deep_view()[k as int].name;
                if crate::name::lex_lt(nm, nm) {
                    crate::name::lemma_lex_lt_asymmetric(nm, nm);
                }
            }
            if crate::name::str_lt(rest[k].name.as_str(), rest[min].name.as_str()) {
                proof {
                    assert forall|j: int| 0 <= j < k implies crate::name::lex_le(
                        rest.deep_view()[k as int].name,
                        (#[trigger] rest.deep_view()[j]).name,
                    ) by {
                        if crate::name::lex_lt(
                            rest.deep_view()[j].name,
                            rest.deep_view()[k as int].name,
                        ) {
                            crate::name::lemma_lex_lt_transitive(
                                rest.deep_view()[j].name,
                                rest.deep_view()[k as int].name,
                                rest.deep_view()[min as int].name,
                            );
                        }
                    }
                }
                min = k;
            }
            k = k + 1;
        }
        let ghost restm = rest.deep_view();
        let ghost outm = out.deep_view();
        let ghost picked = restm[min as int];
        let m = rest.remove(min);
        out.push(m);
        proof {
            broadcast use vstd::seq_lib::group_to_multiset_ensures;
            broadcast use vstd::multiset::group_multiset_axioms;

            assert(rest.deep_view() =~= restm.remove(min as int));
            assert(out.deep_view() =~= outm.push(picked));
            assert(restm.remove(min as int).to_multiset() =~= restm.to_multiset().remove(picked));
            assert(outm.push(picked).to_multiset() =~= outm.to_multiset().insert(picked));
            assert(restm.to_multiset().count(picked) > 0);
            assert(outm.to_multiset().insert(picked).add(restm.to_multiset().remove(picked)) =~= outm.to_multiset().add(restm.to_multiset()));
        }
    }
    proof {
        assert(rest.deep_view() =~= Seq::<MapDataModel>::empty());
        assert(rest.deep_view().to_multiset() =~= Multiset::<MapDataModel>::empty());
        assert(out.deep_view().to_multiset().add(Multiset::<MapDataModel>::empty())
            =~= out.deep_view().to_multiset());
    }
    out
}

/// Assembles all maps from a decoded directory: the directory is scanned for
/// markers and their runs, a later marker with the same name replaces the
/// earlier one, each map's lumps are decoded, and the maps come back sorted
/// by name. Fails with the first lump that cannot be decoded.
pub fn decode_maps(data: &[u8], directory: &Vec<DirectoryEntry>) -> (r: Result<
    Vec<MapData>,
    WadError,
>)
    ensures
        r is Ok <==> spec_assemble_maps(data@, directory.deep_view()) is Ok,
        r is Ok ==> r->Ok_0.deep_view().to_multiset() == spec_assemble_maps(
            data@,
            directory.deep_view(),
        )->Ok_0.to_multiset(),
        r is Ok ==> maps_sorted_by_name(r->Ok_0.deep_view()),
        r is Ok ==> maps_names_distinct(r->Ok_0.deep_view()),
        r is Err ==> spec_assemble_maps(data@, directory.deep_view()) == Err::<
            Seq<MapDataModel>,
            WadErrorModel,
        >(r->Err_0@),
{
    let ghost dirv = directory.deep_view();
    let runs = collect_runs(directory);
    let runs = dedup_runs(directory, runs);
    let ghost runsm = runs_models(dirv, runs@);
    let n = runs.len();
    let mut maps: Vec<MapData> = Vec::new();
    let mut i: usize = 0;
    while i < n
        invariant
            0 <= i <= n,
            n == runs@.len(),
            dirv == directory.deep_view(),
            runsm == runs_models(dirv, runs@),
            runsm == spec_dedup_runs(spec_collect_runs(dirv, 0)),
            runs_in_bounds(runs@, directory@.len() as int),
            maps.deep_view().len() == i,
            forall|j: int|
                0 <= j < i ==> #[trigger] spec_decode_map(data@, runsm[j]) == Ok::<
                    MapDataModel,
                    WadErrorModel,
                >(maps.deep_view()[j]),
        decreases n - i,
    {
        let name = runs[i].name.clone();
        let start = runs[i].start;
        let end = runs[i].end;
        let lump_slice = vstd::slice::slice_subrange(
            vstd::slice::slice_subrange(directory.as_slice(), 0, directory.len()),
            start,
            end,
        );
        proof {
            assert(lump_slice.deep_view() =~= dirv.subrange(start as int, end as int));
            assert(runsm[i as int] == MapRun { name: name@, lumps: lump_slice.deep_view() });
        }
        match decode_map(data, name, lump_slice) {
            Ok(map) => {
                let ghost pre = maps.deep_view();
                let ghost mm = map@;
                maps.push(map);
                proof {
                    assert(maps.deep_view() =~= pre.push(mm));
                }
            },
            Err(e) => {
                proof {
                    lemma_maps_from_err(data@, runsm, 0, i as int);
                }
                return Err(e);
            },
        }
        i = i + 1;
    }
    proof {
        lemma_maps_from_ok(data@, runsm, 0);
        assert(spec_maps_from(data@, runsm, 0)->Ok_0 =~= maps.deep_view());
    }
    let ghost pre = maps.deep_view();
    let sorted = sort_maps(maps);
    proof {
        broadcast use vstd::seq_lib::group_to_multiset_ensures;
        broadcast use vstd::multiset::group_multiset_axioms;

        let sv = sorted.deep_view();
        // Deduplication left every map name distinct, so the decoded maps
        // are pairwise distinct values, and sorting permutes them.
        assert forall|a: int, b: int| 0 <= a < b < pre.len() implies (#[trigger] pre[a]).name != (
        #[trigger] pre[b]).name by {
            assert(spec_decode_map(data@, runsm[a]) == Ok::<MapDataModel, WadErrorModel>(pre[a]));
            assert(spec_decode_map(data@, runsm[b]) == Ok::<MapDataModel, WadErrorModel>(pre[b]));
            assert(pre[a].name == runsm[a].name);
            assert(pre[b].name == runsm[b].name);
        }
        assert(pre.no_duplicates());
        pre.lemma_multiset_has_no_duplicates();
        assert(forall|x: MapDataModel|
            sv.to_multiset().contains(x) ==> sv.to_multiset().count(x) == 1);
        sv.lemma_multiset_has_no_duplicates_conv();
        assert forall|a: int, b: int| 0 <= a < b < sv.len() implies (#[trigger] sv[a]).name != (
        #[trigger] sv[b]).name by {
            if sv[a].name == sv[b].name {
                assert(sv[a] != sv[b]);
                assert(sv.contains(sv[a]));
                assert(sv.contains(sv[b]));
                assert(sv.to_multiset().count(sv[a]) > 0);
                assert(sv.to_multiset().count(sv[b]) > 0);
                assert(pre.to_multiset().count(sv[a]) > 0);
                assert(pre.to_multiset().count(sv[b]) > 0);
                assert(pre.contains(sv[a]));
                assert(pre.contains(sv[b]));
                let ia = choose|i: int| 0 <= i < pre.len() && pre[i] == sv[a];
                let ib = choose|i: int| 0 <= i < pre.len() && pre[i] == sv[b];
                assert(pre[ia].name == pre[ib].name);
            }
        }
    }
    Ok(sorted)
}

/// Decodes a whole container: header, then directory, then the assembled
/// maps; the first failing stage decides the error.
pub open spec fn spec_open_wad(data: Seq<u8>) -> Result<
    (WadType, Seq<DirectoryEntryModel>, Seq<MapDataModel>),
    WadErrorModel,
> {
    match spec_decode_header(data) {
        Err(e) => Err(e),
        Ok(h) => match spec_decode_directory(data, h.directory_offset, h.num_entries) {
            Err(e) => Err(e),
            Ok(dir) => match spec_assemble_maps(data, dir) {
                Err(e) => Err(e),
                Ok(maps) => Ok((h.wad_type, dir, maps)),
            },
        },
    }
}

impl Wad {
    /// Decodes a container from its bytes: the 12-byte header, the directory
    /// it names, and one assembled map per marker entry, sorted by name.
    pub fn open(data: &[u8]) -> (r: Result<Wad, WadError>)
        ensures
            r is Ok <==> spec_open_wad(data@) is Ok,
            r is Ok ==> r->Ok_0.wad_type == spec_open_wad(data@)->Ok_0.0,
            r is Ok ==> r->Ok_0.directory.deep_view() == spec_open_wad(data@)->Ok_0.1,
            r is Ok ==> r->Ok_0.maps.deep_view().to_multiset() == spec_open_wad(
                data@,
            )->Ok_0.2.to_multiset(),
            r is Ok ==> maps_sorted_by_name(r->Ok_0.maps.deep_view()),
            r is Ok ==> maps_names_distinct(r->Ok_0.maps.deep_view()),
            r is Err ==> spec_open_wad(data@) == Err::<
                (WadType, Seq<DirectoryEntryModel>, Seq<MapDataModel>),
                WadErrorModel,
            >(r->Err_0@),
    {
        let header = match crate::directory::decode_header(data) {
            Ok(h) => h,
            Err(e) => {
                return Err(e);
            },
        };
        let directory = match crate::directory::decode_directory(
            data,
            header.directory_offset,
            header.num_entries,
        ) {
            Ok(d) => d,
            Err(e) => {
                return Err(e);
            },
        };
        let maps = match decode_maps(data, &directory) {
            Ok(m) => m,
            Err(e) => {
                return Err(e);
            },
        };
        Ok(Wad { directory, maps, wad_type: header.wad_type })
    }
}

/// The position of the first map with the given name, scanning from `i`.
pub open spec fn spec_find_map_from(maps: Seq<MapDataModel>, name: Seq<char>, i: int) -> Option<
    int,
>
    decreases maps.len() - i,
{
    if i < 0 || i >= maps.len() {
        None
    } else if maps[i].name == name {
        Some(i)
    } else {
        spec_find_map_from(maps, name, i + 1)
    }
}

/// The position of the first map with the given name, if any.
pub open spec fn spec_find_map(maps: Seq<MapDataModel>, name: Seq<char>) -> Option<int> {
    spec_find_map_from(maps, name, 0)
}

/// Looks a map up by name in an assembled map list; absence is the
/// map-not-found error.
pub fn find_map<'a>(maps: &'a Vec<MapData>, name: &str) -> (r: Result<&'a MapData, WadError>)
    ensures
        r is Ok <==> spec_find_map(maps.deep_view(), name@) is Some,
        r is Ok ==> (spec_find_map(maps.deep_view(), name@) matches Some(i) && r->Ok_0@
            == maps.deep_view()[i]),
        r is Err ==> r->Err_0@ == WadErrorModel::MapNotFound && spec_find_map(
            maps.deep_view(),
            name@,
        ) is None,
{
    let ghost mv = maps.deep_view();
    let n = maps.len();
    let mut i: usize = 0;
    while i < n
        invariant
            0 <= i <= n,
            n == mv.len(),
            mv == maps.deep_view(),
            n == maps@.len(),
            spec_find_map(mv, name@) == spec_find_map_from(mv, name@, i as int),
        decreases n - i,
    {
        proof {
            assert(mv[i as int] == maps@[i as int]@);
        }
        if str_eq(maps[i].name.as_str(), name) {
            return Ok(&maps[i]);
        }
        i = i + 1;
    }
    Err(WadError::MapNotFound)
}

} // verus!
