//! What the command line asks for.

use crate::model::{first_with_id, known_volumes, AnyVolumeReference, NewVolumeReference, VolumeLocation, VolumeReference};
use crate::text::{begins_with, has_start, without_slash};
use crate::volume::obj::ProjectionKind;
use vstd::prelude::*;
use vstd::string::*;

verus! {

/// The command line of the browser.
pub struct Args {
    pub data_directory: Option<String>,
    pub obj: Option<String>,
    pub width: Option<usize>,
    pub height: Option<usize>,
    pub transform: Option<String>,
    pub ortho_xz: bool,
    pub invert_transform: bool,
    pub overlay: Option<String>,
    /// The volume; the inner `None` stands for the option without a value.
    pub volume: Option<Option<String>>,
}

/// A mesh to show.
pub struct ObjFileConfig {
    pub obj_file: String,
    pub width: usize,
    pub height: usize,
    /// The transformation to apply, and whether to invert it first.
    pub transform: Option<String>,
    pub invert_transform: bool,
    pub projection: ProjectionKind,
}

pub struct VesuviusConfig {
    pub data_dir: Option<String>,
    pub obj_file: Option<ObjFileConfig>,
    pub overlay_dir: Option<String>,
    pub volume: Option<NewVolumeReference>,
}

/// A line for each volume: its id and its label.
pub open spec fn volume_list(volumes: Seq<AnyVolumeReference>) -> Seq<char>
    decreases volumes.len(),
{
    if volumes.len() == 0 {
        Seq::empty()
    } else {
        let line = volumes.last().spec_id() + " -> "@ + volumes.last().spec_label();
        if volumes.len() == 1 {
            line
        } else {
            volume_list(volumes.drop_last()) + "\n"@ + line
        }
    }
}

fn list_volumes() -> (r: String)
    ensures
        r@ == volume_list(known_volumes()),
{
    let volumes = AnyVolumeReference::VOLUMES();
    let mut r = String::new();
    let mut i: usize = 0;
    assert(r@ =~= volume_list(volumes@.take(0)));
    while i < volumes.len()
        invariant
            i <= volumes@.len(),
            r@ == volume_list(volumes@.take(i as int)),
        decreases volumes@.len() - i,
    {
        let ghost before = r@;
        assert(volumes@.take(i + 1).drop_last() =~= volumes@.take(i as int));
        assert(volumes@.take(i + 1).last() == volumes@[i as int]);
        if i > 0 {
            r.append("\n");
        }
        r.append(volumes[i].id().as_str());
        r.append(" -> ");
        r.append(volumes[i].label().as_str());
        proof {
            let v = volumes@[i as int];
            let line = v.spec_id() + " -> "@ + v.spec_label();
            if i > 0 {
                assert(r@ =~= before + "\n"@ + line);
            } else {
                assert(r@ =~= line);
            }
        }
        i += 1;
    }
    assert(volumes@.take(i as int) =~= volumes@);
    r
}

/// What is known of a name that stands for a volume: whether it is the path of something that
/// exists, and what the files `.zattrs` and `.zarray` below it hold.
pub struct VolumeProbe {
    pub exists: bool,
    pub zattrs: Option<String>,
    pub zarray: Option<String>,
}

/// The volume that a name stands for, or what to say if it stands for none.
pub open spec fn resolves(name: Seq<char>, probe: VolumeProbe, r: Result<NewVolumeReference, String>) -> bool {
    if begins_with(name, "http"@) {
        exists|location: VolumeLocation|
            {
                &&& location is RemoteUrl
                &&& location.text() == without_slash(name)
                &&& #[trigger] NewVolumeReference::found_at(location, probe.zattrs, probe.zarray, r)
            }
    } else if probe.exists {
        exists|location: VolumeLocation|
            {
                &&& location is LocalPath
                &&& location.text() == without_slash(name)
                &&& #[trigger] NewVolumeReference::found_at(location, probe.zattrs, probe.zarray, r)
            }
    } else {
        match first_with_id(known_volumes(), name) {
            Some(v) => r == Ok::<NewVolumeReference, String>(NewVolumeReference::Volume64x4(v)),
            None => {
                &&& r is Err
                &&& r->Err_0@ == "Error: Volume "@ + name + " not found. Use one of:\n"@ + volume_list(
                    known_volumes(),
                )
                    + "\n\nOr provide:\n- HTTP URL to zarr/ome-zarr volume\n- Local filesystem path to zarr/ome-zarr directory"@
            },
        }
    }
}

/// Finds the volume that a name stands for.
pub fn resolve_volume(name: String, probe: VolumeProbe) -> (r: Result<NewVolumeReference, String>)
    ensures
        resolves(name@, probe, r),
{
    if has_start(name.as_str(), "http") {
        return NewVolumeReference::from_url(name, probe.zattrs, probe.zarray);
    }
    if probe.exists {
        return NewVolumeReference::from_path(name, probe.zattrs, probe.zarray);
    }
    match AnyVolumeReference::try_from_id(name.clone()) {
        Ok(v) => Ok(NewVolumeReference::Volume64x4(v)),
        Err(_) => {
            let mut message = "Error: Volume ".to_string();
            message.append(name.as_str());
            message.append(" not found. Use one of:\n");
            message.append(list_volumes().as_str());
            message.append(
                "\n\nOr provide:\n- HTTP URL to zarr/ome-zarr volume\n- Local filesystem path to zarr/ome-zarr directory",
            );
            Err(message)
        },
    }
}

/// What is wrong with the mesh that the command line asks for, if something is.
/// `transform_error` tells why the transformation could not be read.
pub open spec fn obj_error(args: Args, transform_error: Option<String>) -> Option<Seq<char>> {
    if args.obj is None {
        None
    } else if args.transform is Some && transform_error is Some {
        Some(transform_error->0@)
    } else if args.width is None || args.height is None {
        Some("Error: You need to provide --width and --height when using --obj"@)
    } else {
        None
    }
}

/// The mesh that the command line asks for.
pub open spec fn obj_config(args: Args) -> Option<ObjFileConfig> {
    match (args.obj, args.width, args.height) {
        (Some(obj_file), Some(width), Some(height)) => Some(
            ObjFileConfig {
                obj_file,
                width,
                height,
                transform: args.transform,
                invert_transform: args.invert_transform,
                projection: if args.ortho_xz {
                    ProjectionKind::OrthographicXZ
                } else {
                    ProjectionKind::NoProjection
                },
            },
        ),
        _ => None,
    }
}

impl VesuviusConfig {
    /// The configuration for a command line, or what to say instead. The volume is looked at first,
    /// then the mesh.
    pub fn try_from(args: Args, probe: VolumeProbe, transform_error: Option<String>) -> (r: Result<
        VesuviusConfig,
        String,
    >)
        ensures
            args.volume == Some(None::<String>) ==> r is Err && r->Err_0@ == "Volumes:\n"@ + volume_list(
                known_volumes(),
            ),
            args.volume matches Some(Some(name)) ==> exists|volume: Result<NewVolumeReference, String>|
                #[trigger] resolves(name@, probe, volume) && (match volume {
                    Err(e) => r is Err && r->Err_0 == e,
                    Ok(v) => configured(args, transform_error, Some(v), r),
                }),
            args.volume is None ==> configured(args, transform_error, None, r),
    {
        let ghost given = args;
        let volume: Option<NewVolumeReference> = match args.volume {
            None => None,
            Some(None) => {
                let mut message = "Volumes:\n".to_string();
                message.append(list_volumes().as_str());
                return Err(message);
            },
            Some(Some(name)) => {
                let ghost text = name@;
                let found = resolve_volume(name, probe);
                assert(resolves(text, probe, found));
                match found {
                    Ok(v) => Some(v),
                    Err(e) => {
                        return Err(e);
                    },
                }
            },
        };
        let obj_file: Option<ObjFileConfig> = match args.obj {
            None => None,
            Some(obj_file) => {
                if args.transform.is_some() {
                    if let Some(e) = transform_error {
                        return Err(e);
                    }
                }
                match (args.width, args.height) {
                    (Some(width), Some(height)) => Some(
                        ObjFileConfig {
                            obj_file,
                            width,
                            height,
                            transform: args.transform,
                            invert_transform: args.invert_transform,
                            projection: if args.ortho_xz {
                                ProjectionKind::OrthographicXZ
                            } else {
                                ProjectionKind::NoProjection
                            },
                        },
                    ),
                    _ => {
                        return Err(
                            "Error: You need to provide --width and --height when using --obj".to_string(),
                        );
                    },
                }
            },
        };
        Ok(VesuviusConfig { data_dir: args.data_directory, obj_file, overlay_dir: args.overlay, volume })
    }
}

/// The configuration once the volume is known.
pub open spec fn configured(
    args: Args,
    transform_error: Option<String>,
    volume: Option<NewVolumeReference>,
    r: Result<VesuviusConfig, String>,
) -> bool {
    match obj_error(args, transform_error) {
        Some(message) => r is Err && r->Err_0@ == message,
        None => r == Ok::<VesuviusConfig, String>(
            VesuviusConfig {
                data_dir: args.data_directory,
                obj_file: obj_config(args),
                overlay_dir: args.overlay,
                volume,
            },
        ),
    }
}

/// Every volume has its line, in order: its id, an arrow and its label. No line ends the list.
pub proof fn volumes_have_a_line_each(volumes: Seq<AnyVolumeReference>, v: AnyVolumeReference)
    ensures
        volume_list(seq![v]) == v.spec_id() + " -> "@ + v.spec_label(),
        volumes.len() > 0 ==> volume_list(volumes.push(v)) == volume_list(volumes) + "\n"@ + volume_list(
            seq![v],
        ),
        volume_list(Seq::empty()).len() == 0,
{
    assert(volumes.push(v).drop_last() =~= volumes);
}

/// A mesh needs its width and height, and a transformation that was given has to be readable. Without
/// a mesh none of them is looked at.
pub proof fn meshes_need_their_size(args: Args, transform_error: Option<String>)
    ensures
        args.obj is None ==> obj_error(args, transform_error) is None && obj_config(args) is None,
        obj_error(args, transform_error) is None && args.obj is Some ==> args.width is Some && args.height
            is Some && obj_config(args) is Some && (args.transform is None || transform_error is None),
        args.obj is Some && args.transform is Some && transform_error is Some ==> obj_error(
            args,
            transform_error,
        ) == Some(transform_error->0@),
        obj_config(args) matches Some(c) ==> {
            &&& Some(c.obj_file) == args.obj
            &&& Some(c.width) == args.width
            &&& Some(c.height) == args.height
            &&& c.transform == args.transform
            &&& c.invert_transform == args.invert_transform
            &&& c.projection is OrthographicXZ <==> args.ortho_xz
        },
{
}

/// A name that begins like a URL is looked for on a server, any other one in the file system if it is
/// there; only then it is taken for the id of a published volume.
pub proof fn names_are_resolved_in_turn(
    name: Seq<char>,
    probe: VolumeProbe,
    r: Result<NewVolumeReference, String>,
)
    requires
        resolves(name, probe, r),
    ensures
        r is Ok && (begins_with(name, "http"@) || probe.exists) ==> r->Ok_0 is OmeZarr || r->Ok_0 is Zarr,
        r is Ok && r->Ok_0 is OmeZarr ==> r->Ok_0->OmeZarr_location.text() == without_slash(name) && (
        r->Ok_0->OmeZarr_location is RemoteUrl <==> begins_with(name, "http"@)),
        r is Ok && r->Ok_0 is Zarr ==> r->Ok_0->Zarr_location.text() == without_slash(name) && (
        r->Ok_0->Zarr_location is RemoteUrl <==> begins_with(name, "http"@)),
        !begins_with(name, "http"@) && !probe.exists && r is Ok ==> r->Ok_0 is Volume64x4
            && r->Ok_0.spec_id() == name,
{
    if !begins_with(name, "http"@) && !probe.exists && r is Ok {
        lemma_found_has_the_id(known_volumes(), name);
    }
}

proof fn lemma_found_has_the_id(volumes: Seq<AnyVolumeReference>, id: Seq<char>)
    ensures
        first_with_id(volumes, id) matches Some(v) ==> v.spec_id() == id,
    decreases volumes.len(),
{
    if volumes.len() > 0 {
        lemma_found_has_the_id(volumes.drop_first(), id);
    }
}

/// What the command line says arrives in the configuration as it is, under its own name.
pub proof fn configurations_hold_the_arguments(
    args: Args,
    transform_error: Option<String>,
    volume: Option<NewVolumeReference>,
    r: Result<VesuviusConfig, String>,
)
    requires
        configured(args, transform_error, volume, r),
    ensures
        r is Ok <==> obj_error(args, transform_error) is None,
        r matches Ok(c) ==> {
            &&& c.data_dir == args.data_directory
            &&& c.overlay_dir == args.overlay
            &&& c.volume == volume
            &&& c.obj_file is Some <==> args.obj is Some
        },
{
    meshes_need_their_size(args, transform_error);
}

} // verus!
