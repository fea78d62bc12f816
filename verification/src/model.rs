//! Which volumes there are, what they are called and where their data comes from.

use crate::text::{contains_text, last_segment, push_number, without_trailing_slash};
use crate::text::{begins_with, contains, digits, ends_with, segment_after_last, without_slash};
use crate::text::texts_hold_their_parts;
use vstd::prelude::*;
use vstd::string::*;

verus! {

/// How exactly the voxels of a tile are wanted.
#[derive(Clone, Copy, PartialEq, Eq, Structural)]
pub struct Quality {
    pub bit_mask: u8,
    pub downsampling_factor: u8,
}

#[allow(non_snake_case)]
impl Quality {
    #[verifier::allow_in_spec]
    pub fn FULL() -> Quality
        returns
            (Quality { bit_mask: 0xff, downsampling_factor: 1 }),
    {
        Quality { bit_mask: 0xff, downsampling_factor: 1 }
    }
}

/// What the name of a volume leads to.
pub trait VolumeReference {
    spec fn spec_id(&self) -> Seq<char>;

    spec fn spec_sub_dir(&self, data_dir: Seq<char>) -> Seq<char>;

    spec fn spec_label(&self) -> Seq<char>;

    spec fn spec_url_path_base(&self) -> Seq<char>;

    fn id(&self) -> (r: String)
        ensures
            r@ == self.spec_id(),
    ;

    /// The directory below `data_dir` that caches the volume.
    fn sub_dir(&self, data_dir: &str) -> (r: String)
        ensures
            r@ == self.spec_sub_dir(data_dir@),
    ;

    fn label(&self) -> (r: String)
        ensures
            r@ == self.spec_label(),
    ;

    /// The path of the volume on the tile server.
    fn url_path_base(&self) -> (r: String)
        ensures
            r@ == self.spec_url_path_base(),
    ;
}

/// A volume of a scroll that is known only at run time.
pub struct DynamicFullVolumeReference {
    pub scroll_id: String,
    pub volume: String,
}

impl DynamicFullVolumeReference {
    pub fn new(scroll_id: String, volume: String) -> (r: DynamicFullVolumeReference)
        ensures
            r.scroll_id == scroll_id,
            r.volume == volume,
    {
        DynamicFullVolumeReference { scroll_id, volume }
    }
}

impl VolumeReference for DynamicFullVolumeReference {
    open spec fn spec_id(&self) -> Seq<char> {
        self.volume@
    }

    open spec fn spec_sub_dir(&self, data_dir: Seq<char>) -> Seq<char> {
        data_dir + "/scroll"@ + self.scroll_id@ + "/"@ + self.volume@ + "/"@
    }

    open spec fn spec_label(&self) -> Seq<char> {
        "Scroll "@ + self.scroll_id@ + " / "@ + self.volume@
    }

    open spec fn spec_url_path_base(&self) -> Seq<char> {
        "scroll/"@ + self.scroll_id@ + "/volume/"@ + self.volume@ + "/"@
    }

    fn id(&self) -> (r: String) {
        self.volume.as_str().to_owned()
    }

    fn sub_dir(&self, data_dir: &str) -> (r: String) {
        let mut r = data_dir.to_owned();
        r.append("/scroll");
        r.append(self.scroll_id.as_str());
        r.append("/");
        r.append(self.volume.as_str());
        r.append("/");
        r
    }

    fn label(&self) -> (r: String) {
        let mut r = "Scroll ".to_owned();
        r.append(self.scroll_id.as_str());
        r.append(" / ");
        r.append(self.volume.as_str());
        r
    }

    fn url_path_base(&self) -> (r: String) {
        let mut r = "scroll/".to_owned();
        r.append(self.scroll_id.as_str());
        r.append("/volume/");
        r.append(self.volume.as_str());
        r.append("/");
        r
    }
}

/// A published volume of a scroll or of a fragment.
pub struct FullVolumeReference {
    pub scroll_id: &'static str,
    pub volume: &'static str,
}

#[allow(non_snake_case)]
impl FullVolumeReference {
    #[verifier::allow_in_spec]
    pub fn SCROLL1() -> FullVolumeReference
        returns
            (FullVolumeReference { scroll_id: "1", volume: "20230205180739" }),
    {
        FullVolumeReference { scroll_id: "1", volume: "20230205180739" }
    }

    #[verifier::allow_in_spec]
    pub fn SCROLL1B() -> FullVolumeReference
        returns
            (FullVolumeReference { scroll_id: "1", volume: "20230206171837" }),
    {
        FullVolumeReference { scroll_id: "1", volume: "20230206171837" }
    }

    #[verifier::allow_in_spec]
    pub fn SCROLL2() -> FullVolumeReference
        returns
            (FullVolumeReference { scroll_id: "2", volume: "20230210143520" }),
    {
        FullVolumeReference { scroll_id: "2", volume: "20230210143520" }
    }

    #[verifier::allow_in_spec]
    pub fn SCROLL2B() -> FullVolumeReference
        returns
            (FullVolumeReference { scroll_id: "2", volume: "20230206082907" }),
    {
        FullVolumeReference { scroll_id: "2", volume: "20230206082907" }
    }

    #[verifier::allow_in_spec]
    pub fn SCROLL2_88keV() -> FullVolumeReference
        returns
            (FullVolumeReference { scroll_id: "2", volume: "20230212125146" }),
    {
        FullVolumeReference { scroll_id: "2", volume: "20230212125146" }
    }

    #[verifier::allow_in_spec]
    pub fn SCROLL332_3_24_UM() -> FullVolumeReference
        returns
            (FullVolumeReference { scroll_id: "0332", volume: "20231027191953" }),
    {
        FullVolumeReference { scroll_id: "0332", volume: "20231027191953" }
    }

    #[verifier::allow_in_spec]
    pub fn SCROLL332_7_91_UM() -> FullVolumeReference
        returns
            (FullVolumeReference { scroll_id: "0332", volume: "20231117143551" }),
    {
        FullVolumeReference { scroll_id: "0332", volume: "20231117143551" }
    }

    #[verifier::allow_in_spec]
    pub fn SCROLL1667() -> FullVolumeReference
        returns
            (FullVolumeReference { scroll_id: "1667", volume: "20231107190228" }),
    {
        FullVolumeReference { scroll_id: "1667", volume: "20231107190228" }
    }

    #[verifier::allow_in_spec]
    pub fn SCROLL1667_7_91_UM() -> FullVolumeReference
        returns
            (FullVolumeReference { scroll_id: "1667", volume: "20231117161658" }),
    {
        FullVolumeReference { scroll_id: "1667", volume: "20231117161658" }
    }

    #[verifier::allow_in_spec]
    pub fn SCROLL172() -> FullVolumeReference
        returns
            (FullVolumeReference { scroll_id: "172", volume: "20241024131838" }),
    {
        FullVolumeReference { scroll_id: "172", volume: "20241024131838" }
    }

    #[verifier::allow_in_spec]
    pub fn FRAGMENT_PHerc0051Cr04Fr08_3_24_UM_53keV() -> FullVolumeReference
        returns
            (FullVolumeReference { scroll_id: "PHerc0051Cr04Fr08", volume: "20231121152933" }),
    {
        FullVolumeReference { scroll_id: "PHerc0051Cr04Fr08", volume: "20231121152933" }
    }

    #[verifier::allow_in_spec]
    pub fn FRAGMENT_PHerc0051Cr04Fr08_3_24_UM_70keV() -> FullVolumeReference
        returns
            (FullVolumeReference { scroll_id: "PHerc0051Cr04Fr08", volume: "20231201120546" }),
    {
        FullVolumeReference { scroll_id: "PHerc0051Cr04Fr08", volume: "20231201120546" }
    }

    #[verifier::allow_in_spec]
    pub fn FRAGMENT_PHerc0051Cr04Fr08_3_24_UM_88keV() -> FullVolumeReference
        returns
            (FullVolumeReference { scroll_id: "PHerc0051Cr04Fr08", volume: "20231201112849" }),
    {
        FullVolumeReference { scroll_id: "PHerc0051Cr04Fr08", volume: "20231201112849" }
    }

    #[verifier::allow_in_spec]
    pub fn FRAGMENT_PHerc0051Cr04Fr08_7_91_UM_53keV() -> FullVolumeReference
        returns
            (FullVolumeReference { scroll_id: "PHerc0051Cr04Fr08", volume: "20231130112027" }),
    {
        FullVolumeReference { scroll_id: "PHerc0051Cr04Fr08", volume: "20231130112027" }
    }

    #[verifier::allow_in_spec]
    pub fn FRAGMENT_PHerc1667Cr01Fr03() -> FullVolumeReference
        returns
            (FullVolumeReference { scroll_id: "PHerc1667Cr01Fr03", volume: "20231121133215" }),
    {
        FullVolumeReference { scroll_id: "PHerc1667Cr01Fr03", volume: "20231121133215" }
    }

    #[verifier::allow_in_spec]
    pub fn FRAGMENT_1_54keV() -> FullVolumeReference
        returns
            (FullVolumeReference { scroll_id: "Frag1", volume: "20230205142449" }),
    {
        FullVolumeReference { scroll_id: "Frag1", volume: "20230205142449" }
    }

    #[verifier::allow_in_spec]
    pub fn FRAGMENT_1_88keV() -> FullVolumeReference
        returns
            (FullVolumeReference { scroll_id: "Frag1", volume: "20230213100222" }),
    {
        FullVolumeReference { scroll_id: "Frag1", volume: "20230213100222" }
    }

    #[verifier::allow_in_spec]
    pub fn FRAGMENT_2_54keV() -> FullVolumeReference
        returns
            (FullVolumeReference { scroll_id: "Frag2", volume: "20230216174557" }),
    {
        FullVolumeReference { scroll_id: "Frag2", volume: "20230216174557" }
    }

    #[verifier::allow_in_spec]
    pub fn FRAGMENT_2_88keV() -> FullVolumeReference
        returns
            (FullVolumeReference { scroll_id: "Frag2", volume: "20230226143835" }),
    {
        FullVolumeReference { scroll_id: "Frag2", volume: "20230226143835" }
    }

    #[verifier::allow_in_spec]
    pub fn FRAGMENT_3_54keV() -> FullVolumeReference
        returns
            (FullVolumeReference { scroll_id: "Frag3", volume: "20230212182547" }),
    {
        FullVolumeReference { scroll_id: "Frag3", volume: "20230212182547" }
    }

    #[verifier::allow_in_spec]
    pub fn FRAGMENT_3_88keV() -> FullVolumeReference
        returns
            (FullVolumeReference { scroll_id: "Frag3", volume: "20230215142309" }),
    {
        FullVolumeReference { scroll_id: "Frag3", volume: "20230215142309" }
    }

    #[verifier::allow_in_spec]
    pub fn FRAGMENT_4_54keV() -> FullVolumeReference
        returns
            (FullVolumeReference { scroll_id: "Frag4", volume: "20230215185642" }),
    {
        FullVolumeReference { scroll_id: "Frag4", volume: "20230215185642" }
    }

    #[verifier::allow_in_spec]
    pub fn FRAGMENT_4_88keV() -> FullVolumeReference
        returns
            (FullVolumeReference { scroll_id: "Frag4", volume: "20230222173037" }),
    {
        FullVolumeReference { scroll_id: "Frag4", volume: "20230222173037" }
    }

}

impl VolumeReference for FullVolumeReference {
    open spec fn spec_id(&self) -> Seq<char> {
        self.volume@
    }

    open spec fn spec_sub_dir(&self, data_dir: Seq<char>) -> Seq<char> {
        data_dir + "/scroll"@ + self.scroll_id@ + "/"@ + self.volume@ + "/"@
    }

    open spec fn spec_label(&self) -> Seq<char> {
        "Scroll "@ + self.scroll_id@ + " / "@ + self.volume@
    }

    open spec fn spec_url_path_base(&self) -> Seq<char> {
        "scroll/"@ + self.scroll_id@ + "/volume/"@ + self.volume@ + "/"@
    }

    fn id(&self) -> (r: String) {
        self.volume.to_owned()
    }

    fn sub_dir(&self, data_dir: &str) -> (r: String) {
        let mut r = data_dir.to_owned();
        r.append("/scroll");
        r.append(self.scroll_id);
        r.append("/");
        r.append(self.volume);
        r.append("/");
        r
    }

    fn label(&self) -> (r: String) {
        let mut r = "Scroll ".to_owned();
        r.append(self.scroll_id);
        r.append(" / ");
        r.append(self.volume);
        r
    }

    fn url_path_base(&self) -> (r: String) {
        let mut r = "scroll/".to_owned();
        r.append(self.scroll_id);
        r.append("/volume/");
        r.append(self.volume);
        r.append("/");
        r
    }
}

/// A flattened segment that is published as a volume.
pub struct SurfaceVolumeReference {
    pub scroll_id: u16,
    pub segment_id: &'static str,
}

#[allow(non_snake_case)]
impl SurfaceVolumeReference {
    #[verifier::allow_in_spec]
    pub fn SEGMENT_20230827161847() -> SurfaceVolumeReference
        returns
            (SurfaceVolumeReference { scroll_id: 1, segment_id: "20230827161847" }),
    {
        SurfaceVolumeReference { scroll_id: 1, segment_id: "20230827161847" }
    }

    #[verifier::allow_in_spec]
    pub fn SEGMENT_20231005123335() -> SurfaceVolumeReference
        returns
            (SurfaceVolumeReference { scroll_id: 1, segment_id: "20231005123335" }),
    {
        SurfaceVolumeReference { scroll_id: 1, segment_id: "20231005123335" }
    }

}

impl VolumeReference for SurfaceVolumeReference {
    open spec fn spec_id(&self) -> Seq<char> {
        self.segment_id@
    }

    open spec fn spec_sub_dir(&self, data_dir: Seq<char>) -> Seq<char> {
        data_dir + "/scroll"@ + digits(self.scroll_id as nat) + "/segment/"@ + self.segment_id@ + "/"@
    }

    open spec fn spec_label(&self) -> Seq<char> {
        "Scroll "@ + digits(self.scroll_id as nat) + " / Segment "@ + self.segment_id@
    }

    open spec fn spec_url_path_base(&self) -> Seq<char> {
        "scroll/"@ + digits(self.scroll_id as nat) + "/segment/"@ + self.segment_id@ + "/"@
    }

    fn id(&self) -> (r: String) {
        self.segment_id.to_owned()
    }

    fn sub_dir(&self, data_dir: &str) -> (r: String) {
        let mut r = data_dir.to_owned();
        r.append("/scroll");
        push_number(&mut r, self.scroll_id as u64);
        r.append("/segment/");
        r.append(self.segment_id);
        r.append("/");
        r
    }

    fn label(&self) -> (r: String) {
        let mut r = "Scroll ".to_owned();
        push_number(&mut r, self.scroll_id as u64);
        r.append(" / Segment ");
        r.append(self.segment_id);
        r
    }

    fn url_path_base(&self) -> (r: String) {
        let mut r = "scroll/".to_owned();
        push_number(&mut r, self.scroll_id as u64);
        r.append("/segment/");
        r.append(self.segment_id);
        r.append("/");
        r
    }
}

/// Any of the references.
pub enum AnyVolumeReference {
    Dynamic(DynamicFullVolumeReference),
    Full(FullVolumeReference),
    Surface(SurfaceVolumeReference),
}

impl VolumeReference for AnyVolumeReference {
    open spec fn spec_id(&self) -> Seq<char> {
        match self {
            AnyVolumeReference::Dynamic(v) => v.spec_id(),
            AnyVolumeReference::Full(v) => v.spec_id(),
            AnyVolumeReference::Surface(v) => v.spec_id(),
        }
    }

    open spec fn spec_sub_dir(&self, data_dir: Seq<char>) -> Seq<char> {
        match self {
            AnyVolumeReference::Dynamic(v) => v.spec_sub_dir(data_dir),
            AnyVolumeReference::Full(v) => v.spec_sub_dir(data_dir),
            AnyVolumeReference::Surface(v) => v.spec_sub_dir(data_dir),
        }
    }

    open spec fn spec_label(&self) -> Seq<char> {
        match self {
            AnyVolumeReference::Dynamic(v) => v.spec_label(),
            AnyVolumeReference::Full(v) => v.spec_label(),
            AnyVolumeReference::Surface(v) => v.spec_label(),
        }
    }

    open spec fn spec_url_path_base(&self) -> Seq<char> {
        match self {
            AnyVolumeReference::Dynamic(v) => v.spec_url_path_base(),
            AnyVolumeReference::Full(v) => v.spec_url_path_base(),
            AnyVolumeReference::Surface(v) => v.spec_url_path_base(),
        }
    }

    fn id(&self) -> (r: String) {
        match self {
            AnyVolumeReference::Dynamic(v) => v.id(),
            AnyVolumeReference::Full(v) => v.id(),
            AnyVolumeReference::Surface(v) => v.id(),
        }
    }

    fn sub_dir(&self, data_dir: &str) -> (r: String) {
        match self {
            AnyVolumeReference::Dynamic(v) => v.sub_dir(data_dir),
            AnyVolumeReference::Full(v) => v.sub_dir(data_dir),
            AnyVolumeReference::Surface(v) => v.sub_dir(data_dir),
        }
    }

    fn label(&self) -> (r: String) {
        match self {
            AnyVolumeReference::Dynamic(v) => v.label(),
            AnyVolumeReference::Full(v) => v.label(),
            AnyVolumeReference::Surface(v) => v.label(),
        }
    }

    fn url_path_base(&self) -> (r: String) {
        match self {
            AnyVolumeReference::Dynamic(v) => v.url_path_base(),
            AnyVolumeReference::Full(v) => v.url_path_base(),
            AnyVolumeReference::Surface(v) => v.url_path_base(),
        }
    }
}

/// The published volumes.
pub open spec fn known_volumes() -> Seq<AnyVolumeReference> {
    seq![
        AnyVolumeReference::Full(FullVolumeReference::SCROLL1()),
        AnyVolumeReference::Full(FullVolumeReference::SCROLL1B()),
        AnyVolumeReference::Full(FullVolumeReference::SCROLL2()),
        AnyVolumeReference::Full(FullVolumeReference::SCROLL2B()),
        AnyVolumeReference::Full(FullVolumeReference::SCROLL2_88keV()),
        AnyVolumeReference::Full(FullVolumeReference::SCROLL332_3_24_UM()),
        AnyVolumeReference::Full(FullVolumeReference::SCROLL332_7_91_UM()),
        AnyVolumeReference::Full(FullVolumeReference::SCROLL1667()),
        AnyVolumeReference::Full(FullVolumeReference::SCROLL1667_7_91_UM()),
        AnyVolumeReference::Full(FullVolumeReference::SCROLL172()),
        AnyVolumeReference::Full(FullVolumeReference::FRAGMENT_PHerc0051Cr04Fr08_3_24_UM_53keV()),
        AnyVolumeReference::Full(FullVolumeReference::FRAGMENT_PHerc0051Cr04Fr08_3_24_UM_70keV()),
        AnyVolumeReference::Full(FullVolumeReference::FRAGMENT_PHerc0051Cr04Fr08_3_24_UM_88keV()),
        AnyVolumeReference::Full(FullVolumeReference::FRAGMENT_PHerc0051Cr04Fr08_7_91_UM_53keV()),
        AnyVolumeReference::Full(FullVolumeReference::FRAGMENT_PHerc1667Cr01Fr03()),
        AnyVolumeReference::Full(FullVolumeReference::FRAGMENT_1_54keV()),
        AnyVolumeReference::Full(FullVolumeReference::FRAGMENT_1_88keV()),
        AnyVolumeReference::Full(FullVolumeReference::FRAGMENT_2_54keV()),
        AnyVolumeReference::Full(FullVolumeReference::FRAGMENT_2_88keV()),
        AnyVolumeReference::Full(FullVolumeReference::FRAGMENT_3_54keV()),
        AnyVolumeReference::Full(FullVolumeReference::FRAGMENT_3_88keV()),
        AnyVolumeReference::Full(FullVolumeReference::FRAGMENT_4_54keV()),
        AnyVolumeReference::Full(FullVolumeReference::FRAGMENT_4_88keV()),
        AnyVolumeReference::Surface(SurfaceVolumeReference::SEGMENT_20230827161847()),
        AnyVolumeReference::Surface(SurfaceVolumeReference::SEGMENT_20231005123335()),
    ]
}

/// The first published volume with the id, if there is one.
pub open spec fn first_with_id(volumes: Seq<AnyVolumeReference>, id: Seq<char>) -> Option<
    AnyVolumeReference,
>
    decreases volumes.len(),
{
    if volumes.len() == 0 {
        None
    } else if volumes[0].spec_id() == id {
        Some(volumes[0])
    } else {
        first_with_id(volumes.drop_first(), id)
    }
}

impl AnyVolumeReference {
    #[allow(non_snake_case)]
    pub fn VOLUMES() -> (r: Vec<AnyVolumeReference>)
        ensures
            r@ == known_volumes(),
    {
        let r: Vec<AnyVolumeReference> = vec![
            AnyVolumeReference::Full(FullVolumeReference::SCROLL1()),
            AnyVolumeReference::Full(FullVolumeReference::SCROLL1B()),
            AnyVolumeReference::Full(FullVolumeReference::SCROLL2()),
            AnyVolumeReference::Full(FullVolumeReference::SCROLL2B()),
            AnyVolumeReference::Full(FullVolumeReference::SCROLL2_88keV()),
            AnyVolumeReference::Full(FullVolumeReference::SCROLL332_3_24_UM()),
            AnyVolumeReference::Full(FullVolumeReference::SCROLL332_7_91_UM()),
            AnyVolumeReference::Full(FullVolumeReference::SCROLL1667()),
            AnyVolumeReference::Full(FullVolumeReference::SCROLL1667_7_91_UM()),
            AnyVolumeReference::Full(FullVolumeReference::SCROLL172()),
            AnyVolumeReference::Full(FullVolumeReference::FRAGMENT_PHerc0051Cr04Fr08_3_24_UM_53keV()),
            AnyVolumeReference::Full(FullVolumeReference::FRAGMENT_PHerc0051Cr04Fr08_3_24_UM_70keV()),
            AnyVolumeReference::Full(FullVolumeReference::FRAGMENT_PHerc0051Cr04Fr08_3_24_UM_88keV()),
            AnyVolumeReference::Full(FullVolumeReference::FRAGMENT_PHerc0051Cr04Fr08_7_91_UM_53keV()),
            AnyVolumeReference::Full(FullVolumeReference::FRAGMENT_PHerc1667Cr01Fr03()),
            AnyVolumeReference::Full(FullVolumeReference::FRAGMENT_1_54keV()),
            AnyVolumeReference::Full(FullVolumeReference::FRAGMENT_1_88keV()),
            AnyVolumeReference::Full(FullVolumeReference::FRAGMENT_2_54keV()),
            AnyVolumeReference::Full(FullVolumeReference::FRAGMENT_2_88keV()),
            AnyVolumeReference::Full(FullVolumeReference::FRAGMENT_3_54keV()),
            AnyVolumeReference::Full(FullVolumeReference::FRAGMENT_3_88keV()),
            AnyVolumeReference::Full(FullVolumeReference::FRAGMENT_4_54keV()),
            AnyVolumeReference::Full(FullVolumeReference::FRAGMENT_4_88keV()),
            AnyVolumeReference::Surface(SurfaceVolumeReference::SEGMENT_20230827161847()),
            AnyVolumeReference::Surface(SurfaceVolumeReference::SEGMENT_20231005123335()),
        ];
        assert(r@ =~= known_volumes());
        r
    }

    /// The published volume with an id.
    pub fn try_from_id(value: String) -> (r: Result<AnyVolumeReference, String>)
        ensures
            match first_with_id(known_volumes(), value@) {
                Some(v) => r == Ok::<AnyVolumeReference, String>(v),
                None => r is Err && r->Err_0@ == "Volume "@ + value@ + " not found"@,
            },
    {
        let mut volumes = AnyVolumeReference::VOLUMES();
        while volumes.len() > 0
            invariant
                first_with_id(known_volumes(), value@) == first_with_id(volumes@, value@),
            decreases volumes@.len(),
        {
            let ghost before = volumes@;
            let v = volumes.remove(0);
            assert(volumes@ =~= before.drop_first());
            if v.id() == value {
                return Ok(v);
            }
        }
        let mut message = "Volume ".to_owned();
        message.append(value.as_str());
        message.append(" not found");
        Err(message)
    }
}

/// The last three digits of an id, in which all published volumes differ.
spec fn last_digits(id: Seq<char>) -> int {
    (id[11] as int - 48) * 100 + (id[12] as int - 48) * 10 + (id[13] as int - 48)
}

/// Where the published volume whose id ends with `n` stands.
spec fn place_of(n: int) -> int {
    if n == 739 {
        0
    } else if n == 837 {
        1
    } else if n == 520 {
        2
    } else if n == 907 {
        3
    } else if n == 146 {
        4
    } else if n == 953 {
        5
    } else if n == 551 {
        6
    } else if n == 228 {
        7
    } else if n == 658 {
        8
    } else if n == 838 {
        9
    } else if n == 933 {
        10
    } else if n == 546 {
        11
    } else if n == 849 {
        12
    } else if n == 27 {
        13
    } else if n == 215 {
        14
    } else if n == 449 {
        15
    } else if n == 222 {
        16
    } else if n == 557 {
        17
    } else if n == 835 {
        18
    } else if n == 547 {
        19
    } else if n == 309 {
        20
    } else if n == 642 {
        21
    } else if n == 37 {
        22
    } else if n == 847 {
        23
    } else if n == 335 {
        24
    } else {
        -1
    }
}

proof fn lemma_place_of(i: int)
    requires
        0 <= i < known_volumes().len(),
    ensures
        place_of(last_digits(known_volumes()[i].spec_id())) == i,
{
    reveal_strlit("20230205180739");
    reveal_strlit("20230206171837");
    reveal_strlit("20230210143520");
    reveal_strlit("20230206082907");
    reveal_strlit("20230212125146");
    reveal_strlit("20231027191953");
    reveal_strlit("20231117143551");
    reveal_strlit("20231107190228");
    reveal_strlit("20231117161658");
    reveal_strlit("20241024131838");
    reveal_strlit("20231121152933");
    reveal_strlit("20231201120546");
    reveal_strlit("20231201112849");
    reveal_strlit("20231130112027");
    reveal_strlit("20231121133215");
    reveal_strlit("20230205142449");
    reveal_strlit("20230213100222");
    reveal_strlit("20230216174557");
    reveal_strlit("20230226143835");
    reveal_strlit("20230212182547");
    reveal_strlit("20230215142309");
    reveal_strlit("20230215185642");
    reveal_strlit("20230222173037");
    reveal_strlit("20230827161847");
    reveal_strlit("20231005123335");
}

/// Asking for the id of a published volume finds that volume.
pub proof fn known_volumes_are_found(i: int)
    requires
        0 <= i < known_volumes().len(),
    ensures
        first_with_id(known_volumes(), known_volumes()[i].spec_id()) == Some(known_volumes()[i]),
{
    let volumes = known_volumes();
    assert forall|j: int| 0 <= j < i implies (#[trigger] volumes[j]).spec_id() != volumes[i].spec_id() by {
        lemma_place_of(j);
        lemma_place_of(i);
    }
    lemma_first_with_id(volumes, i);
}

proof fn lemma_first_with_id(volumes: Seq<AnyVolumeReference>, i: int)
    requires
        0 <= i < volumes.len(),
        forall|j: int| 0 <= j < i ==> (#[trigger] volumes[j]).spec_id() != volumes[i].spec_id(),
    ensures
        first_with_id(volumes, volumes[i].spec_id()) == Some(volumes[i]),
    decreases volumes.len(),
{
    if i > 0 {
        let rest = volumes.drop_first();
        assert(rest[i - 1] == volumes[i]);
        assert forall|j: int| 0 <= j < i - 1 implies (#[trigger] rest[j]).spec_id() != rest[i - 1].spec_id() by {
            assert(rest[j] == volumes[j + 1]);
        }
        assert(volumes[0].spec_id() != volumes[i].spec_id());
        lemma_first_with_id(rest, i - 1);
    }
}

/// Where volumes are cached.
pub struct VolumeCreationParams {
    pub cache_dir: String,
}

/// Where a volume lies.
pub enum VolumeLocation {
    LocalPath(String),
    RemoteUrl(String),
}

impl VolumeLocation {
    pub open spec fn text(&self) -> Seq<char> {
        match self {
            VolumeLocation::LocalPath(path) => path@,
            VolumeLocation::RemoteUrl(url) => url@,
        }
    }

    /// The file `name` at the location.
    pub fn file(&self, name: &str) -> (r: String)
        ensures
            r@ == self.text() + "/"@ + name@,
    {
        let mut r = match self {
            VolumeLocation::LocalPath(path) => path.clone(),
            VolumeLocation::RemoteUrl(url) => url.clone(),
        };
        r.append("/");
        r.append(name);
        r
    }

    pub fn duplicate(&self) -> (r: VolumeLocation)
        ensures
            r == *self,
    {
        match self {
            VolumeLocation::LocalPath(path) => VolumeLocation::LocalPath(path.clone()),
            VolumeLocation::RemoteUrl(url) => VolumeLocation::RemoteUrl(url.clone()),
        }
    }
}

/// A volume and how it is stored.
pub enum NewVolumeReference {
    Volume64x4(AnyVolumeReference),
    OmeZarr { id: String, location: VolumeLocation },
    Zarr { id: String, location: VolumeLocation },
    Cells { id: String, path: String },
    Layers { id: String, path: String },
}

/// What has to be opened to read a volume.
pub enum VolumePlan {
    /// Tiles that are cached in `dir` and fetched from below `url_path_base` on `server`.
    Tiles { dir: String, server: String, url_path_base: String },
    OmeZarr { location: VolumeLocation },
    Zarr { location: VolumeLocation },
    Cells { path: String },
    Layers { path: String },
}

/// The server that hands out tiles.
pub open spec fn tile_server() -> Seq<char> {
    "https://vesuvius.virtual-void.net"@
}

/// A file that is there and mentions `part`.
pub open spec fn mentions(content: Option<String>, part: Seq<char>) -> bool {
    content is Some && contains(content->0@, part)
}

fn has_mention(content: &Option<String>, part: &str) -> (r: bool)
    ensures
        r == mentions(*content, part@),
{
    match content {
        Some(text) => contains_text(text.as_str(), part),
        None => false,
    }
}

impl NewVolumeReference {
    pub open spec fn spec_id(&self) -> Seq<char> {
        match self {
            NewVolumeReference::Volume64x4(v) => v.spec_id(),
            NewVolumeReference::OmeZarr { id, .. } => id@,
            NewVolumeReference::Zarr { id, .. } => id@,
            NewVolumeReference::Cells { id, .. } => id@,
            NewVolumeReference::Layers { id, .. } => id@,
        }
    }

    pub open spec fn spec_label(&self) -> Seq<char> {
        match self {
            NewVolumeReference::Volume64x4(v) => v.spec_label(),
            _ => self.spec_id(),
        }
    }

    pub fn id(&self) -> (r: String)
        ensures
            r@ == self.spec_id(),
    {
        match self {
            NewVolumeReference::Volume64x4(v) => v.id(),
            NewVolumeReference::OmeZarr { id, .. } => id.clone(),
            NewVolumeReference::Zarr { id, .. } => id.clone(),
            NewVolumeReference::Cells { id, .. } => id.clone(),
            NewVolumeReference::Layers { id, .. } => id.clone(),
        }
    }

    pub fn label(&self) -> (r: String)
        ensures
            r@ == self.spec_label(),
    {
        match self {
            NewVolumeReference::Volume64x4(v) => v.label(),
            NewVolumeReference::OmeZarr { id, .. } => id.clone(),
            NewVolumeReference::Zarr { id, .. } => id.clone(),
            NewVolumeReference::Cells { id, .. } => id.clone(),
            NewVolumeReference::Layers { id, .. } => id.clone(),
        }
    }

    /// What has to be opened to read the volume.
    pub fn volume(&self, params: &VolumeCreationParams) -> (plan: VolumePlan)
        ensures
            match *self {
                NewVolumeReference::Volume64x4(v) => {
                    &&& plan is Tiles
                    &&& plan->dir@ == v.spec_sub_dir(params.cache_dir@)
                    &&& plan->server@ == tile_server()
                    &&& plan->url_path_base@ == v.spec_url_path_base()
                },
                NewVolumeReference::OmeZarr { location, .. } => plan == (VolumePlan::OmeZarr {
                    location,
                }),
                NewVolumeReference::Zarr { location, .. } => plan == (VolumePlan::Zarr { location }),
                NewVolumeReference::Cells { path, .. } => plan == (VolumePlan::Cells { path }),
                NewVolumeReference::Layers { path, .. } => plan == (VolumePlan::Layers { path }),
            },
    {
        match self {
            NewVolumeReference::Volume64x4(v) => VolumePlan::Tiles {
                dir: v.sub_dir(params.cache_dir.as_str()),
                server: "https://vesuvius.virtual-void.net".to_owned(),
                url_path_base: v.url_path_base(),
            },
            NewVolumeReference::OmeZarr { location, .. } => VolumePlan::OmeZarr {
                location: location.duplicate(),
            },
            NewVolumeReference::Zarr { location, .. } => VolumePlan::Zarr {
                location: location.duplicate(),
            },
            NewVolumeReference::Cells { path, .. } => VolumePlan::Cells { path: path.clone() },
            NewVolumeReference::Layers { path, .. } => VolumePlan::Layers { path: path.clone() },
        }
    }

    /// What is known of a location from its files `.zattrs` and `.zarray`, if they can be read.
    pub open spec fn found_at(
        location: VolumeLocation,
        zattrs: Option<String>,
        zarray: Option<String>,
        r: Result<NewVolumeReference, String>,
    ) -> bool {
        let id = segment_after_last(location.text(), '/');
        if mentions(zattrs, "multiscales"@) {
            &&& r is Ok
            &&& r->Ok_0 is OmeZarr
            &&& r->Ok_0.spec_id() == id
            &&& r->Ok_0->OmeZarr_location == location
        } else if mentions(zarray, "zarr_format"@) || mentions(zarray, "chunks"@) {
            &&& r is Ok
            &&& r->Ok_0 is Zarr
            &&& r->Ok_0.spec_id() == id
            &&& r->Ok_0->Zarr_location == location
        } else {
            &&& r is Err
            &&& r->Err_0@ == (if location is RemoteUrl {
                "URL"@
            } else {
                "Path"@
            }) + " "@ + location.text()
                + " is neither a valid OME-Zarr nor Zarr array (no .zattrs or .zarray found)"@
        }
    }

    /// The volume at a URL, of which one slash at the end does not count.
    pub fn from_url(url: String, zattrs: Option<String>, zarray: Option<String>) -> (r: Result<
        NewVolumeReference,
        String,
    >)
        ensures
            exists|location: VolumeLocation|
                {
                    &&& location is RemoteUrl
                    &&& location.text() == without_slash(url@)
                    &&& #[trigger] NewVolumeReference::found_at(location, zattrs, zarray, r)
                },
    {
        let location = VolumeLocation::RemoteUrl(without_trailing_slash(url.as_str()));
        NewVolumeReference::from_location(location, zattrs, zarray)
    }

    /// The volume in a directory, of which one slash at the end does not count.
    pub fn from_path(path: String, zattrs: Option<String>, zarray: Option<String>) -> (r: Result<
        NewVolumeReference,
        String,
    >)
        ensures
            exists|location: VolumeLocation|
                {
                    &&& location is LocalPath
                    &&& location.text() == without_slash(path@)
                    &&& #[trigger] NewVolumeReference::found_at(location, zattrs, zarray, r)
                },
    {
        let location = VolumeLocation::LocalPath(without_trailing_slash(path.as_str()));
        NewVolumeReference::from_location(location, zattrs, zarray)
    }

    /// The volume at a location whose files `.zattrs` and `.zarray` read as given.
    pub fn from_location(
        location: VolumeLocation,
        zattrs: Option<String>,
        zarray: Option<String>,
    ) -> (r: Result<NewVolumeReference, String>)
        ensures
            NewVolumeReference::found_at(location, zattrs, zarray, r),
    {
        let (id, mut message) = match &location {
            VolumeLocation::RemoteUrl(url) => (last_segment(url.as_str()), "URL".to_owned()),
            VolumeLocation::LocalPath(path) => (last_segment(path.as_str()), "Path".to_owned()),
        };
        if has_mention(&zattrs, "multiscales") {
            return Ok(NewVolumeReference::OmeZarr { id, location });
        }
        if has_mention(&zarray, "zarr_format") || has_mention(&zarray, "chunks") {
            return Ok(NewVolumeReference::Zarr { id, location });
        }
        message.append(" ");
        match &location {
            VolumeLocation::RemoteUrl(url) => message.append(url.as_str()),
            VolumeLocation::LocalPath(path) => message.append(path.as_str()),
        }
        message.append(
            " is neither a valid OME-Zarr nor Zarr array (no .zattrs or .zarray found)",
        );
        Err(message)
    }
}

proof fn lemma_together(a: Seq<char>, b: Seq<char>, c: Seq<char>)
    ensures
        a + b + c == a + (b + c),
{
    assert(a + b + c =~= a + (b + c));
}

proof fn lemma_path(a: Seq<char>, b: Seq<char>, c: Seq<char>, d: Seq<char>, e: Seq<char>)
    ensures
        begins_with(a + b + c + d + e, a + b + c),
        ends_with(a + b + c + d + e, c + d + e),
{
    lemma_together(a + b + c, d, e);
    texts_hold_their_parts(a + b + c, d + e, Seq::empty());
    lemma_together(a + b, c, d + e);
    lemma_together(c, d, e);
    texts_hold_their_parts(a + b, c + d + e, Seq::empty());
}

/// Where a volume is kept and fetched, and what it is called, names its scroll first and then the
/// volume.
pub proof fn paths_name_scroll_and_volume(v: FullVolumeReference, dir: Seq<char>)
    ensures
        v.spec_id() == v.volume@,
        begins_with(v.spec_sub_dir(dir), dir + "/scroll"@ + v.scroll_id@ + "/"@),
        ends_with(v.spec_sub_dir(dir), "/"@ + v.volume@ + "/"@),
        begins_with(v.spec_url_path_base(), "scroll/"@ + v.scroll_id@ + "/volume/"@),
        ends_with(v.spec_url_path_base(), "/volume/"@ + v.volume@ + "/"@),
        begins_with(v.spec_label(), "Scroll "@ + v.scroll_id@),
        ends_with(v.spec_label(), " / "@ + v.volume@),
{
    lemma_path(dir + "/scroll"@, v.scroll_id@, "/"@, v.volume@, "/"@);
    lemma_path("scroll/"@, v.scroll_id@, "/volume/"@, v.volume@, "/"@);
    let (a, b) = ("Scroll "@ + v.scroll_id@, " / "@ + v.volume@);
    lemma_together(a, " / "@, v.volume@);
    texts_hold_their_parts(a, b, Seq::empty());
}

/// A volume that is named at run time is kept, fetched and called as a published one of that name, and
/// a reference to any volume as that volume.
pub proof fn references_agree(d: DynamicFullVolumeReference, v: FullVolumeReference, dir: Seq<char>)
    requires
        d.scroll_id@ == v.scroll_id@,
        d.volume@ == v.volume@,
    ensures
        d.spec_id() == v.spec_id(),
        d.spec_sub_dir(dir) == v.spec_sub_dir(dir),
        d.spec_label() == v.spec_label(),
        d.spec_url_path_base() == v.spec_url_path_base(),
        AnyVolumeReference::Dynamic(d).spec_id() == AnyVolumeReference::Full(v).spec_id(),
        AnyVolumeReference::Full(v).spec_id() == v.volume@,
        AnyVolumeReference::Dynamic(d).spec_sub_dir(dir) == v.spec_sub_dir(dir),
        AnyVolumeReference::Full(v).spec_sub_dir(dir) == v.spec_sub_dir(dir),
        AnyVolumeReference::Dynamic(d).spec_label() == v.spec_label(),
        AnyVolumeReference::Full(v).spec_label() == v.spec_label(),
        AnyVolumeReference::Dynamic(d).spec_url_path_base() == v.spec_url_path_base(),
        AnyVolumeReference::Full(v).spec_url_path_base() == v.spec_url_path_base(),
{
}

/// A surface is kept and fetched below its scroll, under the name of its segment.
pub proof fn surfaces_are_named_by_segment(s: SurfaceVolumeReference, dir: Seq<char>)
    ensures
        s.spec_id() == s.segment_id@,
        begins_with(s.spec_sub_dir(dir), dir + "/scroll"@ + digits(s.scroll_id as nat) + "/segment/"@),
        ends_with(s.spec_sub_dir(dir), "/segment/"@ + s.segment_id@ + "/"@),
        begins_with(s.spec_url_path_base(), "scroll/"@ + digits(s.scroll_id as nat) + "/segment/"@),
        ends_with(s.spec_url_path_base(), "/segment/"@ + s.segment_id@ + "/"@),
        begins_with(s.spec_label(), "Scroll "@ + digits(s.scroll_id as nat)),
        ends_with(s.spec_label(), " / Segment "@ + s.segment_id@),
        AnyVolumeReference::Surface(s).spec_id() == s.spec_id(),
        AnyVolumeReference::Surface(s).spec_sub_dir(dir) == s.spec_sub_dir(dir),
        AnyVolumeReference::Surface(s).spec_label() == s.spec_label(),
        AnyVolumeReference::Surface(s).spec_url_path_base() == s.spec_url_path_base(),
{
    let id = digits(s.scroll_id as nat);
    lemma_path(dir + "/scroll"@, id, "/segment/"@, s.segment_id@, "/"@);
    lemma_path("scroll/"@, id, "/segment/"@, s.segment_id@, "/"@);
    let (a, b) = ("Scroll "@ + id, " / Segment "@ + s.segment_id@);
    lemma_together(a, " / Segment "@, s.segment_id@);
    texts_hold_their_parts(a, b, Seq::empty());
}

/// The volume that is found has the id, and none before it has; nothing is found only if none has it.
pub proof fn first_volumes_are_found(volumes: Seq<AnyVolumeReference>, id: Seq<char>, i: int)
    requires
        0 <= i <= volumes.len(),
        forall|j: int| 0 <= j < i ==> (#[trigger] volumes[j]).spec_id() != id,
        i < volumes.len() ==> volumes[i].spec_id() == id,
    ensures
        i < volumes.len() ==> first_with_id(volumes, id) == Some(volumes[i]),
        i == volumes.len() ==> first_with_id(volumes, id) is None,
    decreases volumes.len(),
{
    if i > 0 {
        assert(volumes[0].spec_id() != id);
        let rest = volumes.drop_first();
        assert forall|j: int| 0 <= j < i - 1 implies (#[trigger] rest[j]).spec_id() != id by {
            assert(rest[j] == volumes[j + 1]);
        }
        first_volumes_are_found(rest, id, i - 1);
        if i < volumes.len() {
            assert(rest[i - 1] == volumes[i]);
        }
    }
}

/// What lies at a location is told by its files: resolutions come before a single array, and a
/// location with neither is an error. The volume has the name of the last part of the location.
pub proof fn files_tell_the_kind_of_volume(
    location: VolumeLocation,
    zattrs: Option<String>,
    zarray: Option<String>,
    r: Result<NewVolumeReference, String>,
)
    requires
        NewVolumeReference::found_at(location, zattrs, zarray, r),
    ensures
        r is Ok && r->Ok_0 is OmeZarr <==> zattrs is Some && contains(zattrs->0@, "multiscales"@),
        r is Ok && r->Ok_0 is Zarr <==> !(zattrs is Some && contains(zattrs->0@, "multiscales"@)) && zarray
            is Some && (contains(zarray->0@, "zarr_format"@) || contains(zarray->0@, "chunks"@)),
        r is Ok ==> r->Ok_0 is OmeZarr || r->Ok_0 is Zarr,
        r is Ok ==> r->Ok_0.spec_id() == segment_after_last(location.text(), '/') && r->Ok_0.spec_label()
            == r->Ok_0.spec_id(),
        r is Ok && r->Ok_0 is OmeZarr ==> r->Ok_0->OmeZarr_location == location,
        r is Ok && r->Ok_0 is Zarr ==> r->Ok_0->Zarr_location == location,
        r is Err ==> contains(r->Err_0@, location.text()),
{
    if r is Err {
        let start = (if location is RemoteUrl { "URL"@ } else { "Path"@ }) + " "@;
        texts_hold_their_parts(
            start,
            location.text(),
            " is neither a valid OME-Zarr nor Zarr array (no .zattrs or .zarray found)"@,
        );
    }
}

} // verus!
