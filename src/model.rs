use vstd::prelude::*;

verus! {

/// One aircraft at one instant.
///
/// Latitude and longitude are in millionths of a degree, altitude in feet,
/// speed in knots and heading in whole degrees clockwise from north.
#[derive(Debug, Clone)]
pub struct Airplane {
    pub callsign: String,
    pub aircraft_type: String,
    pub latitude_e6: i64,
    pub longitude_e6: i64,
    pub altitude_ft: i64,
    pub speed_kn: u32,
    pub heading_deg: u32,
}

/// A proximity conflict between two aircraft of one snapshot.
///
/// The distance is in thousandths of a nautical mile, the altitude difference
/// in feet.
#[derive(Debug, Clone)]
pub struct Alert {
    pub plane1_callsign: String,
    pub plane2_callsign: String,
    pub distance_mnm: u64,
    pub altitude_diff_ft: u64,
}

/// No two aircraft of the snapshot share a callsign.
pub open spec fn callsigns_unique(planes: Seq<Airplane>) -> bool {
    forall|i: int, j: int|
        0 <= i < planes.len() && 0 <= j < planes.len() && i != j ==> #[trigger] planes[i].callsign@
            != #[trigger] planes[j].callsign@
}

} // verus!
