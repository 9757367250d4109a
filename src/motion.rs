use vstd::prelude::*;

use crate::model::Airplane;

verus! {

/// The direction of travel of one aircraft, split into the degrees of latitude
/// and of longitude covered per degree of arc, in millionths.
///
/// `north_ppm` is the cosine of the heading; `east_ppm` is the sine of the
/// heading divided by the cosine of the latitude, so that longitude degrees
/// shrink away from the equator.
#[derive(Debug, Clone, Copy)]
pub struct Course {
    pub north_ppm: i32,
    pub east_ppm: i32,
}

/// Millionths of a degree covered in `elapsed_s` seconds at `speed_kn` knots
/// along a course component of `factor_ppm`, at 60 nautical miles per degree,
/// truncated toward zero.
pub open spec fn offset_e6(speed_kn: int, elapsed_s: int, factor_ppm: int) -> int {
    let magnitude = if factor_ppm >= 0 {
        factor_ppm
    } else {
        -factor_ppm
    };
    let covered = speed_kn * elapsed_s * magnitude / 216000;
    if factor_ppm >= 0 {
        covered
    } else {
        -covered
    }
}

/// The new latitude of `p`, in millionths of a degree.
pub open spec fn moved_latitude(p: Airplane, elapsed_s: int, c: Course) -> int {
    p.latitude_e6 + offset_e6(p.speed_kn as int, elapsed_s, c.north_ppm as int)
}

/// The new longitude of `p`, in millionths of a degree.
pub open spec fn moved_longitude(p: Airplane, elapsed_s: int, c: Course) -> int {
    p.longitude_e6 + offset_e6(p.speed_kn as int, elapsed_s, c.east_ppm as int)
}

/// The aircraft `p` after `elapsed_s` seconds on course `c`: only the position changes.
pub open spec fn moved(p: Airplane, elapsed_s: int, c: Course) -> Airplane {
    Airplane {
        callsign: p.callsign,
        aircraft_type: p.aircraft_type,
        latitude_e6: moved_latitude(p, elapsed_s, c) as i64,
        longitude_e6: moved_longitude(p, elapsed_s, c) as i64,
        altitude_ft: p.altitude_ft,
        speed_kn: p.speed_kn,
        heading_deg: p.heading_deg,
    }
}

/// Every new position is representable.
pub open spec fn positions_fit(planes: Seq<Airplane>, elapsed_s: int, courses: Seq<Course>) -> bool {
    &&& forall|i: int|
        0 <= i < planes.len() ==> i64::MIN <= #[trigger] moved_latitude(
            planes[i],
            elapsed_s,
            courses[i],
        ) <= i64::MAX
    &&& forall|i: int|
        0 <= i < planes.len() ==> i64::MIN <= #[trigger] moved_longitude(
            planes[i],
            elapsed_s,
            courses[i],
        ) <= i64::MAX
}

fn offset(speed_kn: u32, elapsed_s: u32, factor_ppm: i32) -> (r: i128)
    ensures
        r == offset_e6(speed_kn as int, elapsed_s as int, factor_ppm as int),
{
    let magnitude: u128 = if factor_ppm >= 0 {
        factor_ppm as u128
    } else {
        (-(factor_ppm as i64)) as u128
    };
    let s = speed_kn as u128;
    let e = elapsed_s as u128;
    assert(s * e <= 0xffff_ffffu128 * 0xffff_ffffu128) by (nonlinear_arith)
        requires
            s <= 0xffff_ffff,
            e <= 0xffff_ffff,
    ;
    let se = s * e;
    assert(se * magnitude <= 0xffff_ffffu128 * 0xffff_ffffu128 * 0x8000_0000u128)
        by (nonlinear_arith)
        requires
            se <= 0xffff_ffffu128 * 0xffff_ffffu128,
            magnitude <= 0x8000_0000,
    ;
    let covered = se * magnitude / 216000;
    if factor_ppm >= 0 {
        covered as i128
    } else {
        -(covered as i128)
    }
}

/// Moves every aircraft along its course for `elapsed_seconds`, keeping order,
/// callsign, type, altitude, speed and heading.
pub fn calculate_airplane_positions(
    planes: &Vec<Airplane>,
    elapsed_seconds: u32,
    courses: &Vec<Course>,
) -> (r: Vec<Airplane>)
    requires
        courses@.len() == planes@.len(),
        positions_fit(planes@, elapsed_seconds as int, courses@),
    ensures
        r@.len() == planes@.len(),
        forall|i: int|
            0 <= i < planes@.len() ==> r@[i] == moved(
                #[trigger] planes@[i],
                elapsed_seconds as int,
                courses@[i],
            ),
{
    let mut r: Vec<Airplane> = Vec::new();
    let mut i: usize = 0;
    while i < planes.len()
        invariant
            courses@.len() == planes@.len(),
            positions_fit(planes@, elapsed_seconds as int, courses@),
            i <= planes@.len(),
            r@.len() == i,
            forall|k: int|
                0 <= k < i ==> r@[k] == moved(
                    #[trigger] planes@[k],
                    elapsed_seconds as int,
                    courses@[k],
                ),
        decreases planes@.len() - i,
    {
        let plane = &planes[i];
        let course = courses[i];
        let north = offset(plane.speed_kn, elapsed_seconds, course.north_ppm);
        let east = offset(plane.speed_kn, elapsed_seconds, course.east_ppm);
        assert(i64::MIN <= moved_latitude(planes@[i as int], elapsed_seconds as int, courses@[i as int])
            <= i64::MAX);
        assert(i64::MIN <= moved_longitude(planes@[i as int], elapsed_seconds as int, courses@[i as int])
            <= i64::MAX);
        let latitude_e6 = (plane.latitude_e6 as i128 + north) as i64;
        let longitude_e6 = (plane.longitude_e6 as i128 + east) as i64;
        r.push(
            Airplane {
                callsign: plane.callsign.clone(),
                aircraft_type: plane.aircraft_type.clone(),
                latitude_e6,
                longitude_e6,
                altitude_ft: plane.altitude_ft,
                speed_kn: plane.speed_kn,
                heading_deg: plane.heading_deg,
            },
        );
        i += 1;
    }
    r
}

/// Moving keeps callsign, type, altitude, speed and heading of every aircraft,
/// and the number of aircraft; after no time at all, every aircraft is as it was.
pub proof fn lemma_advance_keeps(planes: Seq<Airplane>, elapsed_s: int, courses: Seq<Course>)
    requires
        courses.len() == planes.len(),
    ensures
        forall|i: int|
            0 <= i < planes.len() ==> {
                let m = #[trigger] moved(planes[i], elapsed_s, courses[i]);
                &&& m.callsign == planes[i].callsign
                &&& m.aircraft_type == planes[i].aircraft_type
                &&& m.altitude_ft == planes[i].altitude_ft
                &&& m.speed_kn == planes[i].speed_kn
                &&& m.heading_deg == planes[i].heading_deg
            },
        elapsed_s == 0 ==> forall|i: int|
            0 <= i < planes.len() ==> #[trigger] moved(planes[i], elapsed_s, courses[i])
                == planes[i],
{
    if elapsed_s == 0 {
        assert forall|i: int| 0 <= i < planes.len() implies #[trigger] moved(
            planes[i],
            elapsed_s,
            courses[i],
        ) == planes[i] by {
            let p = planes[i];
            let c = courses[i];
            assert(p.speed_kn as int * 0 == 0);
            assert(offset_e6(p.speed_kn as int, 0, c.north_ppm as int) == 0);
            assert(offset_e6(p.speed_kn as int, 0, c.east_ppm as int) == 0);
        }
    }
}

} // verus!
