//! Segments of the atlas, which can be shown on several volumes.

use crate::gui::state::{SegmentMode, ViewState};
use crate::text::{begins_with, contains, contains_text, digits, has_start, push_number};
use vstd::prelude::*;
use vstd::string::*;

verus! {

/// How a volume was scanned, as far as it is known. The numbers are in the order of the measured
/// values that they stand for.
#[derive(Clone, Copy, PartialEq, Eq, Structural)]
pub struct ScanProperties {
    pub pixel_size: Option<i64>,
    pub energy: Option<i64>,
    pub detector_distance: Option<i64>,
}

/// A volume of a sample, where it lies, and how it was scanned.
pub struct AtlasVolume {
    pub id: String,
    pub ome_zarr_url: Option<String>,
    pub properties: Option<ScanProperties>,
}

/// A segment of a sample: the volume that it was made on, its size there, and the volumes that it
/// can be shown on.
pub struct AtlasSegment {
    pub id: String,
    pub original_volume_id: String,
    pub width: usize,
    pub height: usize,
    pub volumes: Vec<String>,
}

pub struct AtlasSample {
    pub segments: Vec<AtlasSegment>,
    pub volumes: Vec<AtlasVolume>,
}

/// The place of the first segment with a name.
pub open spec fn segment_at(segments: Seq<AtlasSegment>, id: Seq<char>, i: int) -> bool {
    &&& 0 <= i < segments.len()
    &&& segments[i].id@ == id
    &&& forall|k: int| 0 <= k < i ==> (#[trigger] segments[k]).id@ != id
}

/// Where the first volume with a name lies, if it is there and lies somewhere.
pub open spec fn volume_url(volumes: Seq<AtlasVolume>, id: Seq<char>) -> Option<Seq<char>>
    decreases volumes.len(),
{
    if volumes.len() == 0 {
        None
    } else if volumes[0].id@ == id {
        match volumes[0].ome_zarr_url {
            Some(url) => Some(url@),
            None => None,
        }
    } else {
        volume_url(volumes.drop_first(), id)
    }
}

/// What to load to show a segment on a volume.
pub struct AtlasPlan {
    /// The volume that the segment is shown on.
    pub volume_id: String,
    /// Where that volume lies.
    pub volume_url: Option<String>,
    /// The mesh goes through the transformation from this volume.
    pub mesh_from: Option<String>,
    /// The place on the surface is scaled as the transformation from this volume says.
    pub surface_from: Option<String>,
    /// The place in the volume goes through the transformation from this volume.
    pub world_from: Option<String>,
    pub width: usize,
    pub height: usize,
    pub available_volumes: Vec<String>,
}

/// An optional name.
pub open spec fn named(s: Option<String>) -> Option<Seq<char>> {
    match s {
        Some(s) => Some(s@),
        None => None,
    }
}

/// The plan for a segment. Without a target the segment is shown on the volume that it was made
/// on, in its own size. With a target, the size and the place carry over from what is shown.
pub open spec fn planned(
    sample: AtlasSample,
    segment: AtlasSegment,
    target: Option<Seq<char>>,
    mode: Option<SegmentMode>,
    plan: AtlasPlan,
) -> bool {
    let original = segment.original_volume_id@;
    let source = match mode {
        Some(m) => match m.current_base_volume_id {
            Some(id) => id@,
            None => original,
        },
        None => original,
    };
    let volume = match target {
        Some(t) => t,
        None => original,
    };
    &&& plan.volume_id@ == volume
    &&& named(plan.volume_url) == volume_url(sample.volumes@, volume)
    &&& named(plan.mesh_from) == (if volume != original {
        Some(original)
    } else {
        None
    })
    &&& named(plan.surface_from) == (if source != volume {
        Some(source)
    } else {
        None
    })
    &&& named(plan.world_from) == (if target is Some && source != volume {
        Some(source)
    } else {
        None
    })
    &&& match mode {
        Some(m) if target is Some => plan.width == m.width && plan.height == m.height,
        _ => plan.width == segment.width && plan.height == segment.height,
    }
    &&& plan.available_volumes@ == segment.volumes@
}

fn find_url(volumes: &Vec<AtlasVolume>, id: &String) -> (r: Option<String>)
    ensures
        named(r) == volume_url(volumes@, id@),
{
    let mut i: usize = 0;
    assert(volumes@.skip(0) =~= volumes@);
    while i < volumes.len()
        invariant
            i <= volumes@.len(),
            volume_url(volumes@, id@) == volume_url(volumes@.skip(i as int), id@),
        decreases volumes@.len() - i,
    {
        assert(volumes@.skip(i as int).drop_first() =~= volumes@.skip(i + 1));
        if volumes[i].id == *id {
            return match &volumes[i].ome_zarr_url {
                Some(url) => Some(url.clone()),
                None => None,
            };
        }
        i += 1;
    }
    None
}

fn copied(names: &Vec<String>) -> (r: Vec<String>)
    ensures
        r@ == names@,
{
    let mut r: Vec<String> = Vec::new();
    let mut i: usize = 0;
    while i < names.len()
        invariant
            i <= names@.len(),
            r@ == names@.take(i as int),
        decreases names@.len() - i,
    {
        r.push(names[i].clone());
        i += 1;
        assert(r@ =~= names@.take(i as int));
    }
    assert(names@.take(i as int) =~= names@);
    r
}

/// Plans what to load; `None` if the sample has no such segment.
pub fn plan_atlas_segment(
    sample: &AtlasSample,
    segment_id: &str,
    target_volume_id: Option<&str>,
    mode: Option<&SegmentMode>,
) -> (r: Option<AtlasPlan>)
    ensures
        match r {
            Some(plan) => exists|i: int|
                #[trigger] segment_at(sample.segments@, segment_id@, i) && planned(
                    *sample,
                    sample.segments@[i],
                    match target_volume_id {
                        Some(t) => Some(t@),
                        None => None,
                    },
                    match mode {
                        Some(m) => Some(*m),
                        None => None,
                    },
                    plan,
                ),
            None => forall|i: int|
                0 <= i < sample.segments@.len() ==> (#[trigger] sample.segments@[i]).id@ != segment_id@,
        },
{
    let wanted = segment_id.to_string();
    let mut i: usize = 0;
    while i < sample.segments.len() && sample.segments[i].id != wanted
        invariant
            i <= sample.segments@.len(),
            wanted@ == segment_id@,
            forall|k: int| 0 <= k < i ==> (#[trigger] sample.segments@[k]).id@ != segment_id@,
        decreases sample.segments@.len() - i,
    {
        i += 1;
    }
    if i == sample.segments.len() {
        return None;
    }
    let segment = &sample.segments[i];
    let original = segment.original_volume_id.clone();
    let source: String = match mode {
        Some(m) => match &m.current_base_volume_id {
            Some(id) => id.clone(),
            None => original.clone(),
        },
        None => original.clone(),
    };
    let volume: String = match target_volume_id {
        Some(t) => t.to_string(),
        None => original.clone(),
    };
    let url = find_url(&sample.volumes, &volume);
    let moved = source != volume;
    let mesh_from: Option<String> = if volume != original {
        Some(original)
    } else {
        None
    };
    let world_from: Option<String> = if moved && target_volume_id.is_some() {
        Some(source.clone())
    } else {
        None
    };
    let surface_from: Option<String> = if moved {
        Some(source)
    } else {
        None
    };
    let (width, height): (usize, usize) = match (mode, target_volume_id) {
        (Some(m), Some(_)) => (m.width, m.height),
        _ => (segment.width, segment.height),
    };
    let plan = AtlasPlan {
        volume_id: volume,
        volume_url: url,
        mesh_from,
        surface_from,
        world_from,
        width,
        height,
        available_volumes: copied(&segment.volumes),
    };
    assert(segment_at(sample.segments@, segment_id@, i as int));
    Some(plan)
}

/// How the first volume with a name was scanned, if it is there and that is known.
pub open spec fn volume_properties(volumes: Seq<AtlasVolume>, id: Seq<char>) -> Option<ScanProperties>
    decreases volumes.len(),
{
    if volumes.len() == 0 {
        None
    } else if volumes[0].id@ == id {
        volumes[0].properties
    } else {
        volume_properties(volumes.drop_first(), id)
    }
}

fn find_properties(volumes: &Vec<AtlasVolume>, id: &String) -> (r: Option<ScanProperties>)
    ensures
        r == volume_properties(volumes@, id@),
{
    let mut i: usize = 0;
    assert(volumes@.skip(0) =~= volumes@);
    while i < volumes.len()
        invariant
            i <= volumes@.len(),
            volume_properties(volumes@, id@) == volume_properties(volumes@.skip(i as int), id@),
        decreases volumes@.len() - i,
    {
        assert(volumes@.skip(i as int).drop_first() =~= volumes@.skip(i + 1));
        if volumes[i].id == *id {
            return volumes[i].properties;
        }
        i += 1;
    }
    None
}

/// The order of measured values: one that is not known comes before all others.
pub open spec fn value_before(a: Option<i64>, b: Option<i64>) -> bool {
    match (a, b) {
        (None, Some(_)) => true,
        (Some(a), Some(b)) => a < b,
        _ => false,
    }
}

/// The order of scans: by the size of a pixel, then by energy, then by distance. A scan of which
/// nothing is known comes neither before nor after another.
pub open spec fn scanned_before(a: Option<ScanProperties>, b: Option<ScanProperties>) -> bool {
    match (a, b) {
        (Some(a), Some(b)) => {
            ||| value_before(a.pixel_size, b.pixel_size)
            ||| a.pixel_size == b.pixel_size && value_before(a.energy, b.energy)
            ||| a.pixel_size == b.pixel_size && a.energy == b.energy && value_before(
                a.detector_distance,
                b.detector_distance,
            )
        },
        _ => false,
    }
}

/// Any two of the scans can be compared, or no two can.
pub open spec fn comparable(scans: Seq<Option<ScanProperties>>) -> bool {
    forall|i: int, j: int|
        0 <= i < scans.len() && 0 <= j < scans.len() ==> ((#[trigger] scans[i]) is Some <==> (
        #[trigger] scans[j]) is Some)
}

/// One place belongs before another: its scan does, or neither scan does and it came first.
pub open spec fn place_before(scans: Seq<Option<ScanProperties>>, a: int, b: int) -> bool {
    ||| scanned_before(scans[a], scans[b])
    ||| a < b && !scanned_before(scans[b], scans[a])
}

/// Each place stands in an order once; where the scans can be compared, it is the order of the
/// scans.
pub open spec fn is_scan_order(scans: Seq<Option<ScanProperties>>, order: Seq<usize>) -> bool {
    &&& order.len() == scans.len()
    &&& forall|i: int| 0 <= i < order.len() ==> #[trigger] order[i] < scans.len()
    &&& order.no_duplicates()
    &&& comparable(scans) ==> forall|i: int, j: int|
        0 <= i < j < order.len() ==> place_before(
            scans,
            #[trigger] order[i] as int,
            #[trigger] order[j] as int,
        )
}

fn is_value_before(a: Option<i64>, b: Option<i64>) -> (r: bool)
    ensures
        r == value_before(a, b),
{
    match (a, b) {
        (None, Some(_)) => true,
        (Some(a), Some(b)) => a < b,
        _ => false,
    }
}

fn is_scanned_before(a: &Option<ScanProperties>, b: &Option<ScanProperties>) -> (r: bool)
    ensures
        r == scanned_before(*a, *b),
{
    match (a, b) {
        (Some(a), Some(b)) => {
            if a.pixel_size != b.pixel_size {
                is_value_before(a.pixel_size, b.pixel_size)
            } else if a.energy != b.energy {
                is_value_before(a.energy, b.energy)
            } else {
                is_value_before(a.detector_distance, b.detector_distance)
            }
        },
        _ => false,
    }
}

/// The places of scans in the order of the scans. Scans that are alike keep their order.
pub fn scan_order(scans: &Vec<Option<ScanProperties>>) -> (r: Vec<usize>)
    ensures
        is_scan_order(scans@, r@),
{
    let mut order: Vec<usize> = Vec::new();
    let mut i: usize = 0;
    while i < scans.len()
        invariant
            i <= scans@.len(),
            order@.len() == i,
            forall|k: int| 0 <= k < i ==> #[trigger] order@[k] < i,
            order@.no_duplicates(),
            comparable(scans@) ==> forall|k: int, l: int|
                0 <= k < l < i ==> place_before(
                    scans@,
                    #[trigger] order@[k] as int,
                    #[trigger] order@[l] as int,
                ),
        decreases scans@.len() - i,
    {
        let mut p: usize = i;
        while p > 0 && is_scanned_before(&scans[i], &scans[order[p - 1]])
            invariant
                p <= i < scans@.len(),
                order@.len() == i,
                forall|k: int| 0 <= k < i ==> #[trigger] order@[k] < i,
                forall|k: int|
                    p <= k < i ==> scanned_before(scans@[i as int], scans@[#[trigger] order@[k] as int]),
            decreases p,
        {
            p -= 1;
        }
        let ghost before = order@;
        order.insert(p, i);
        proof {
            if comparable(scans@) {
                assert forall|k: int, l: int| 0 <= k < l < i + 1 implies place_before(
                    scans@,
                    #[trigger] order@[k] as int,
                    #[trigger] order@[l] as int,
                ) by {
                    if l == p {
                        assert(place_before(scans@, before[k] as int, before[p - 1] as int) || k == p - 1);
                        let last = scans@[before[p - 1] as int];
                        let one = scans@[before[k] as int];
                        assert(!scanned_before(scans@[i as int], last));
                        assert(!scanned_before(last, one));
                        assert(last is Some <==> one is Some);
                        assert(scans@[i as int] is Some <==> one is Some);
                        assert(!scanned_before(scans@[i as int], one));
                    }
                }
            }
        }
        i += 1;
    }
    order
}

/// How volumes with these names were scanned.
pub open spec fn scans_of(volumes: Seq<AtlasVolume>, names: Seq<String>) -> Seq<
    Option<ScanProperties>,
> {
    names.map_values(|id: String| volume_properties(volumes, id@))
}

/// Names of volumes in the order of their scans.
fn in_scan_order(sample: &AtlasSample, available: &Vec<String>) -> (r: Vec<String>)
    ensures
        exists|order: Seq<usize>|
            {
                &&& #[trigger] is_scan_order(scans_of(sample.volumes@, available@), order)
                &&& r@ == order.map_values(|at: usize| available@[at as int])
            },
{
    let mut scans: Vec<Option<ScanProperties>> = Vec::new();
    let mut i: usize = 0;
    while i < available.len()
        invariant
            i <= available@.len(),
            scans@.len() == i,
            forall|k: int|
                0 <= k < i ==> #[trigger] scans@[k] == volume_properties(
                    sample.volumes@,
                    available@[k]@,
                ),
        decreases available@.len() - i,
    {
        scans.push(find_properties(&sample.volumes, &available[i]));
        i += 1;
    }
    let order = scan_order(&scans);
    let mut r: Vec<String> = Vec::new();
    let mut i: usize = 0;
    while i < order.len()
        invariant
            i <= order@.len(),
            order@.len() == available@.len(),
            forall|k: int| 0 <= k < order@.len() ==> #[trigger] order@[k] < available@.len(),
            r@.len() == i,
            forall|k: int| 0 <= k < i ==> #[trigger] r@[k] == available@[order@[k] as int],
        decreases order@.len() - i,
    {
        r.push(available[order[i]].clone());
        i += 1;
    }
    proof {
        assert(scans_of(sample.volumes@, available@) =~= scans@);
        assert(r@ =~= order@.map_values(|at: usize| available@[at as int]));
        assert(is_scan_order(scans_of(sample.volumes@, available@), order@));
    }
    r
}

/// The volumes that the segment can be shown on, in the order of their scans; none without a
/// segment.
pub fn get_sorted_volumes(sample: &AtlasSample, mode: Option<&SegmentMode>) -> (r: Vec<String>)
    ensures
        match mode {
            Some(mode) => exists|order: Seq<usize>|
                {
                    &&& #[trigger] is_scan_order(
                        scans_of(sample.volumes@, mode.available_volumes@),
                        order,
                    )
                    &&& r@ == order.map_values(|at: usize| mode.available_volumes@[at as int])
                },
            None => r@.len() == 0,
        },
{
    match mode {
        Some(mode) => in_scan_order(sample, &mode.available_volumes),
        None => Vec::new(),
    }
}

/// The measured values of a scan as they are shown: the size of a pixel in micrometres, the energy
/// in kiloelectronvolts and the distance in metres.
pub struct ScanTexts {
    pub pixel_size: Option<String>,
    pub energy: Option<String>,
    pub detector_distance: Option<String>,
}

/// The label of a volume: how it was scanned, if all of that is known, and else its name. With the
/// number of a key, only the size of a pixel and the key are told.
pub open spec fn volume_label(
    id: Seq<char>,
    scan: Option<ScanTexts>,
    shortcut: Option<u64>,
) -> Seq<char> {
    match scan {
        Some(
            ScanTexts {
                pixel_size: Some(size),
                energy: Some(energy),
                detector_distance: Some(distance),
            },
        ) => match shortcut {
            Some(key) => size@ + "\u{b5}m (^"@ + digits(key as nat) + ")"@,
            None => size@ + "\u{b5}m, "@ + energy@ + "keV, "@ + distance@ + "m"@,
        },
        _ => id,
    }
}

/// Tells how a volume is labelled.
pub fn format_volume_label(id: &str, scan: &Option<ScanTexts>, shortcut: Option<u64>) -> (r: String)
    ensures
        r@ == volume_label(id@, *scan, shortcut),
{
    let scan = match scan {
        Some(scan) => scan,
        None => {
            return id.to_string();
        },
    };
    match (&scan.pixel_size, &scan.energy, &scan.detector_distance) {
        (Some(size), Some(energy), Some(distance)) => {
            let mut r = size.clone();
            match shortcut {
                Some(key) => {
                    r.append("\u{b5}m (^");
                    push_number(&mut r, key);
                    r.append(")");
                },
                None => {
                    r.append("\u{b5}m, ");
                    r.append(energy.as_str());
                    r.append("keV, ");
                    r.append(distance.as_str());
                    r.append("m");
                },
            }
            r
        },
        _ => id.to_string(),
    }
}

/// The label of a volume in a list: its name follows where the label is another.
pub fn listed_volume_label(id: &str, scan: &Option<ScanTexts>) -> (r: String)
    ensures
        r@ == ({
            let label = volume_label(id@, *scan, None);
            if label != id@ {
                label + " ("@ + id@ + ")"@
            } else {
                label
            }
        }),
{
    let mut r = format_volume_label(id, scan, None);
    if r != id.to_string() {
        r.append(" (");
        r.append(id);
        r.append(")");
    }
    r
}

/// The file of a mesh below the cache directory.
pub fn atlas_obj_cache_path(sample_id: &str, segment_id: &str) -> (r: String)
    ensures
        r@ == "atlas-segments/"@ + sample_id@ + "/"@ + segment_id@ + ".obj"@,
{
    let mut r = "atlas-segments/".to_string();
    r.append(sample_id);
    r.append("/");
    r.append(segment_id);
    r.append(".obj");
    r
}

impl ViewState {
    /// Takes note of where a segment that was loaded comes from, and on which volume it is shown.
    pub fn atlas_loaded(
        &mut self,
        sample_id: &str,
        segment_id: &str,
        volume_id: String,
        available_volumes: Vec<String>,
    )
        requires
            old(self).valid(),
        ensures
            final(self).valid(),
            match old(self).segment {
                None => *final(self) == *old(self),
                Some(s) => {
                    &&& final(self).segment matches Some(after)
                    &&& named(after.sample_id) == Some(sample_id@)
                    &&& named(after.segment_id) == Some(segment_id@)
                    &&& after == (SegmentMode {
                        sample_id: after.sample_id,
                        segment_id: after.segment_id,
                        current_base_volume_id: Some(volume_id),
                        available_volumes: available_volumes,
                        ..s
                    })
                    &&& *final(self) == (ViewState { segment: final(self).segment, ..*old(self) })
                },
            },
    {
        let mut taken: Option<SegmentMode> = None;
        std::mem::swap(&mut taken, &mut self.segment);
        if let Some(s) = taken {
            let mut segment = s;
            segment.sample_id = Some(sample_id.to_string());
            segment.segment_id = Some(segment_id.to_string());
            segment.current_base_volume_id = Some(volume_id);
            segment.available_volumes = available_volumes;
            self.segment = Some(segment);
        }
    }
}

/// What is laid over the volume.
#[derive(Clone, Copy, PartialEq, Eq, Structural)]
pub enum OverlaySource {
    NoOverlay,
    OmeZarrUrl,
    OmeZarrPath,
    ZarrUrl,
    ZarrPath,
}

/// Tells from a name what is laid over the volume. Only Zarr arrays can be.
pub fn overlay_source(name: &str) -> (r: OverlaySource)
    ensures
        r == (if !contains(name@, ".zarr"@) {
            OverlaySource::NoOverlay
        } else if contains(name@, ".ome.zarr"@) {
            if begins_with(name@, "http"@) {
                OverlaySource::OmeZarrUrl
            } else {
                OverlaySource::OmeZarrPath
            }
        } else if begins_with(name@, "http"@) {
            OverlaySource::ZarrUrl
        } else {
            OverlaySource::ZarrPath
        }),
{
    let remote = has_start(name, "http");
    if !contains_text(name, ".zarr") {
        OverlaySource::NoOverlay
    } else if contains_text(name, ".ome.zarr") {
        if remote {
            OverlaySource::OmeZarrUrl
        } else {
            OverlaySource::OmeZarrPath
        }
    } else if remote {
        OverlaySource::ZarrUrl
    } else {
        OverlaySource::ZarrPath
    }
}

/// The first volume with an id counts: its address and its properties are found, and nothing for an id
/// that no volume has.
pub proof fn first_volumes_count(volumes: Seq<AtlasVolume>, id: Seq<char>, i: int)
    requires
        0 <= i <= volumes.len(),
        forall|j: int| 0 <= j < i ==> (#[trigger] volumes[j]).id@ != id,
        i < volumes.len() ==> volumes[i].id@ == id,
    ensures
        i < volumes.len() ==> volume_url(volumes, id) == named(volumes[i].ome_zarr_url),
        i < volumes.len() ==> volume_properties(volumes, id) == volumes[i].properties,
        i == volumes.len() ==> volume_url(volumes, id) is None && volume_properties(volumes, id) is None,
    decreases volumes.len(),
{
    if i > 0 {
        assert(volumes[0].id@ != id);
        let rest = volumes.drop_first();
        assert forall|j: int| 0 <= j < i - 1 implies (#[trigger] rest[j]).id@ != id by {
            assert(rest[j] == volumes[j + 1]);
        }
        first_volumes_count(rest, id, i - 1);
        if i < volumes.len() {
            assert(rest[i - 1] == volumes[i]);
        }
    }
}

/// A segment is shown in the volume that is asked for, or else in its own. What lies in another volume is
/// carried over from there: the mesh from the segment's own, the view from the one that is shown. Where
/// nothing changes nothing is carried over.
pub proof fn plans_carry_over_what_differs(
    sample: AtlasSample,
    segment: AtlasSegment,
    target: Option<Seq<char>>,
    mode: Option<SegmentMode>,
    plan: AtlasPlan,
)
    requires
        planned(sample, segment, target, mode, plan),
    ensures
        target matches Some(t) ==> plan.volume_id@ == t,
        target is None ==> plan.volume_id@ == segment.original_volume_id@ && plan.mesh_from is None
            && plan.world_from is None,
        plan.mesh_from is None <==> plan.volume_id@ == segment.original_volume_id@,
        plan.mesh_from matches Some(m) ==> m@ == segment.original_volume_id@,
        plan.surface_from matches Some(s) ==> s@ != plan.volume_id@,
        plan.world_from is Some ==> target is Some && named(plan.world_from) == named(plan.surface_from),
        mode is None ==> plan.width == segment.width && plan.height == segment.height,
        mode is None ==> named(plan.surface_from) == named(plan.mesh_from),
        target is Some && mode is Some ==> plan.width == mode->0.width && plan.height == mode->0.height,
        mode is Some && mode->0.current_base_volume_id is Some && plan.surface_from is Some ==> named(
            plan.surface_from,
        ) == named(mode->0.current_base_volume_id),
        mode is Some && mode->0.current_base_volume_id is Some && plan.surface_from is None
            ==> plan.volume_id@ == mode->0.current_base_volume_id->0@,
{
}

/// Scans are ordered by their pixel size, then by their energy, then by the distance of the detector; a
/// value that is not known comes first. A scan of which nothing is known is before and behind none.
pub proof fn scans_are_ordered_by_size_first(a: ScanProperties, b: ScanProperties, n: i64, m: i64)
    ensures
        value_before(Some(n), Some(m)) <==> n < m,
        value_before(None, Some(m)) && !value_before(Some(n), None) && !value_before(None, None),
        value_before(a.pixel_size, b.pixel_size) ==> scanned_before(Some(a), Some(b)) && !scanned_before(
            Some(b),
            Some(a),
        ),
        a.pixel_size == b.pixel_size && value_before(a.energy, b.energy) ==> scanned_before(
            Some(a),
            Some(b),
        ) && !scanned_before(Some(b), Some(a)),
        a.pixel_size == b.pixel_size && a.energy == b.energy ==> (scanned_before(Some(a), Some(b))
            <==> value_before(a.detector_distance, b.detector_distance)),
        !scanned_before(None, Some(b)) && !scanned_before(Some(a), None) && !scanned_before(None, None),
{
}

/// Of two scans that can be told apart the earlier one is listed first, and of others the one that came
/// first.
pub proof fn scans_are_listed_in_order(scans: Seq<Option<ScanProperties>>, order: Seq<usize>, i: int, j: int)
    requires
        is_scan_order(scans, order),
        comparable(scans),
        0 <= i < j < order.len(),
    ensures
        !scanned_before(scans[order[j] as int], scans[order[i] as int]),
        scanned_before(scans[order[i] as int], scans[order[j] as int]) || order[i] < order[j],
{
    let (a, b) = (order[i] as int, order[j] as int);
    assert(place_before(scans, a, b));
    assert(scans[a] is Some <==> scans[b] is Some);
    if scans[a] is Some && scans[b] is Some {
        scans_are_ordered_by_size_first(scans[a]->0, scans[b]->0, 0, 0);
    }
}

/// A volume is labelled with its id unless all of its scan is known. The label then starts with the pixel
/// size, and names either the key or the energy and the distance.
pub proof fn labels_tell_the_scan(
    id: Seq<char>,
    size: String,
    energy: String,
    distance: String,
    shortcut: Option<u64>,
    partly: ScanTexts,
)
    ensures
        volume_label(id, None, shortcut) == id,
        partly.pixel_size is None || partly.energy is None || partly.detector_distance is None
            ==> volume_label(id, Some(partly), shortcut) == id,
        ({
            let scan = ScanTexts {
                pixel_size: Some(size),
                energy: Some(energy),
                detector_distance: Some(distance),
            };
            let label = volume_label(id, Some(scan), shortcut);
            &&& begins_with(label, size@)
            &&& shortcut matches Some(key) ==> label == size@ + "\u{b5}m (^"@ + digits(key as nat) + ")"@
            &&& shortcut is None ==> label == size@ + "\u{b5}m, "@ + energy@ + "keV, "@ + distance@ + "m"@
        }),
{
    let scan = ScanTexts {
        pixel_size: Some(size),
        energy: Some(energy),
        detector_distance: Some(distance),
    };
    let label = volume_label(id, Some(scan), shortcut);
    assert(label.subrange(0, size@.len() as int) =~= size@);
}

} // verus!
