//! Three scans of one fragment, shown as the three parts of a colour.

use crate::model::FullVolumeReference;
use crate::volume::image::Color32;
use vstd::prelude::*;

verus! {

/// The scans whose values become red, green and blue.
pub struct RGBVolume {
    pub base_volumes: [FullVolumeReference; 3],
}

impl RGBVolume {
    /// Fragment 6, at three energies.
    pub fn new_for_frag6() -> (r: RGBVolume)
        ensures
            r.base_volumes@ == seq![
                FullVolumeReference::FRAGMENT_PHerc0051Cr04Fr08_3_24_UM_53keV(),
                FullVolumeReference::FRAGMENT_PHerc0051Cr04Fr08_3_24_UM_70keV(),
                FullVolumeReference::FRAGMENT_PHerc0051Cr04Fr08_3_24_UM_88keV(),
            ],
    {
        let base_volumes: [FullVolumeReference; 3] = [
            FullVolumeReference::FRAGMENT_PHerc0051Cr04Fr08_3_24_UM_53keV(),
            FullVolumeReference::FRAGMENT_PHerc0051Cr04Fr08_3_24_UM_70keV(),
            FullVolumeReference::FRAGMENT_PHerc0051Cr04Fr08_3_24_UM_88keV(),
        ];
        assert(base_volumes@ =~= seq![
            FullVolumeReference::FRAGMENT_PHerc0051Cr04Fr08_3_24_UM_53keV(),
            FullVolumeReference::FRAGMENT_PHerc0051Cr04Fr08_3_24_UM_70keV(),
            FullVolumeReference::FRAGMENT_PHerc0051Cr04Fr08_3_24_UM_88keV(),
        ]);
        RGBVolume { base_volumes }
    }

    /// The colour of a voxel, given its values in the three scans.
    pub fn color(v0: u8, v1: u8, v2: u8) -> (c: Color32)
        ensures
            c == Color32::rgb(v0, v1, v2),
    {
        Color32::from_rgb(v0, v1, v2)
    }
}

} // verus!
