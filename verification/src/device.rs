//! Device matching: identify capture targets by an allow-list of
//! (vendor id, product id) pairs read from device descriptors.

use vstd::prelude::*;

verus! {

/// Vendor and product identifiers read from a device descriptor.
#[derive(Clone, Copy, PartialEq, Eq, Structural, Debug)]
pub struct DeviceIdentity {
    pub vendor_id: u16,
    pub product_id: u16,
}

/// True when `id` appears in the allow-list.
pub fn matches_allow_list(id: DeviceIdentity, allow: &Vec<DeviceIdentity>) -> (r: bool)
    ensures
        r <==> exists|k: int| 0 <= k < allow@.len() && allow@[k] == id,
{
    let mut j: usize = 0;
    while j < allow.len()
        invariant
            0 <= j <= allow@.len(),
            forall|k: int| 0 <= k < j ==> allow@[k] != id,
        decreases allow@.len() - j,
    {
        if allow[j] == id {
            return true;
        }
        j += 1;
    }
    false
}

/// A scan entry holds a readable descriptor whose identity is on the
/// allow-list.
pub open spec fn scan_match(entry: Option<DeviceIdentity>, allow: Seq<DeviceIdentity>) -> bool {
    entry matches Some(id) && allow.contains(id)
}

/// Produce the subset of the scanned bus that matches the allow-list, as
/// indices into the scan, in scan order. An entry whose descriptor could
/// not be read (`None`) is skipped, never fatal to the scan.
pub fn match_devices(scan: &Vec<Option<DeviceIdentity>>, allow: &Vec<DeviceIdentity>) -> (r: Vec<
    usize,
>)
    ensures
        forall|k: int|
            0 <= k < r@.len() ==> (#[trigger] r@[k]) < scan@.len() && scan_match(
                scan@[r@[k] as int],
                allow@,
            ),
        forall|k1: int, k2: int| 0 <= k1 < k2 < r@.len() ==> r@[k1] < r@[k2],
        forall|i: int|
            0 <= i < scan@.len() && scan_match(#[trigger] scan@[i], allow@) ==> r@.contains(
                i as usize,
            ),
{
    let mut r: Vec<usize> = Vec::new();
    let mut i: usize = 0;
    while i < scan.len()
        invariant
            i <= scan@.len(),
            forall|k: int|
                0 <= k < r@.len() ==> (#[trigger] r@[k]) < i && scan_match(
                    scan@[r@[k] as int],
                    allow@,
                ),
            forall|k1: int, k2: int| 0 <= k1 < k2 < r@.len() ==> r@[k1] < r@[k2],
            forall|j: int|
                0 <= j < i && scan_match(#[trigger] scan@[j], allow@) ==> r@.contains(j as usize),
        decreases scan@.len() - i,
    {
        let hit = match &scan[i] {
            Some(id) => matches_allow_list(*id, allow),
            None => false,
        };
        if hit {
            let ghost rpre = r@;
            r.push(i);
            proof {
                assert(r@[r@.len() - 1] == i as usize);
                assert(r@.contains(i as usize));
                assert forall|j: int|
                    0 <= j < i + 1 && scan_match(#[trigger] scan@[j], allow@) implies r@.contains(
                    j as usize,
                ) by {
                    if j < i {
                        let k = choose|k: int| 0 <= k < rpre.len() && rpre[k] == j as usize;
                        assert(r@[k] == j as usize);
                    }
                }
            }
        }
        i += 1;
    }
    r
}

/// The built-in capture targets: the compact Korg and the large Yamaha this
/// rig records from.
pub fn default_allow_list() -> (r: Vec<DeviceIdentity>)
    ensures
        r@.len() == 2,
        r@[0] == (DeviceIdentity { vendor_id: 0x944, product_id: 0x111 }),
        r@[1] == (DeviceIdentity { vendor_id: 0x499, product_id: 0x1039 }),
{
    let mut r: Vec<DeviceIdentity> = Vec::new();
    r.push(DeviceIdentity { vendor_id: 0x944, product_id: 0x111 });
    r.push(DeviceIdentity { vendor_id: 0x499, product_id: 0x1039 });
    r
}

} // verus!
