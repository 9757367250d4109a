use vstd::prelude::*;

use crate::model::{callsigns_unique, Airplane, Alert};

verus! {

/// Two aircraft closer than this, in thousandths of a nautical mile, may conflict.
pub const ALERT_DISTANCE_MNM: u64 = 5000;

/// Two aircraft whose altitudes differ by less than this, in feet, may conflict.
pub const ALERT_ALTITUDE_DIFF_FT: u64 = 1000;

/// Absolute difference of the two altitudes, in feet.
pub open spec fn altitude_diff_ft(a: Airplane, b: Airplane) -> int {
    if a.altitude_ft >= b.altitude_ft {
        a.altitude_ft - b.altitude_ft
    } else {
        b.altitude_ft - a.altitude_ft
    }
}

/// The alert condition: the distance test is inclusive, the altitude test strict.
pub open spec fn in_conflict(a: Airplane, b: Airplane, distance_mnm: u64) -> bool {
    distance_mnm <= ALERT_DISTANCE_MNM && altitude_diff_ft(a, b) < ALERT_ALTITUDE_DIFF_FT
}

/// The alert reported for the pair `(a, b)` at the given distance.
pub open spec fn alert_of(a: Airplane, b: Airplane, distance_mnm: u64) -> Alert {
    Alert {
        plane1_callsign: a.callsign,
        plane2_callsign: b.callsign,
        distance_mnm,
        altitude_diff_ft: altitude_diff_ft(a, b) as u64,
    }
}

/// `d` gives a distance for every ordered pair of aircraft of `planes`.
pub open spec fn well_formed_distances(planes: Seq<Airplane>, d: Seq<Seq<u64>>) -> bool {
    &&& d.len() == planes.len()
    &&& forall|i: int| 0 <= i < d.len() ==> (#[trigger] d[i]).len() == planes.len()
}

/// The alerts of the pairs `(i, k)` with `i < k < j`, in increasing `k`.
pub open spec fn alerts_in_row(p: Seq<Airplane>, d: Seq<Seq<u64>>, i: int, j: int) -> Seq<Alert>
    decreases j - i,
{
    if j <= i + 1 {
        Seq::empty()
    } else {
        let prev = alerts_in_row(p, d, i, j - 1);
        if in_conflict(p[i], p[j - 1], d[i][j - 1]) {
            prev.push(alert_of(p[i], p[j - 1], d[i][j - 1]))
        } else {
            prev
        }
    }
}

/// The alerts of all pairs whose first index is below `i`, row after row.
pub open spec fn alerts_before_row(p: Seq<Airplane>, d: Seq<Seq<u64>>, i: int) -> Seq<Alert>
    decreases i,
{
    if i <= 0 {
        Seq::empty()
    } else {
        alerts_before_row(p, d, i - 1) + alerts_in_row(p, d, i - 1, p.len() as int)
    }
}

/// The alerts of a whole snapshot: every unordered pair once, `i < j`, in
/// increasing `i` and then increasing `j`.
pub open spec fn scan_spec(p: Seq<Airplane>, d: Seq<Seq<u64>>) -> Seq<Alert> {
    alerts_before_row(p, d, p.len() as int)
}

/// Checks one pair of aircraft, `distance_mnm` apart, for a conflict.
pub fn check_alert_between_planes(plane1: &Airplane, plane2: &Airplane, distance_mnm: u64) -> (r:
    Option<Alert>)
    ensures
        r == (if in_conflict(*plane1, *plane2, distance_mnm) {
            Some(alert_of(*plane1, *plane2, distance_mnm))
        } else {
            None
        }),
{
    let diff: i128 = plane1.altitude_ft as i128 - plane2.altitude_ft as i128;
    let altitude_diff_ft: u64 = if diff >= 0 {
        diff as u64
    } else {
        (-diff) as u64
    };
    if distance_mnm <= ALERT_DISTANCE_MNM && altitude_diff_ft < ALERT_ALTITUDE_DIFF_FT {
        Some(
            Alert {
                plane1_callsign: plane1.callsign.clone(),
                plane2_callsign: plane2.callsign.clone(),
                distance_mnm,
                altitude_diff_ft,
            },
        )
    } else {
        None
    }
}

/// Checks every unordered pair of the snapshot once; `distances[i][j]` is the
/// distance between aircraft `i` and `j`.
pub fn check_all_alerts(planes: &Vec<Airplane>, distances: &Vec<Vec<u64>>) -> (r: Vec<Alert>)
    requires
        well_formed_distances(planes@, distances.deep_view()),
    ensures
        r@ == scan_spec(planes@, distances.deep_view()),
{
    let ghost p = planes@;
    let ghost d = distances.deep_view();
    let n = planes.len();
    let mut alerts: Vec<Alert> = Vec::new();
    let mut i: usize = 0;
    while i < n
        invariant
            n == p.len(),
            p == planes@,
            d == distances.deep_view(),
            well_formed_distances(p, d),
            i <= n,
            alerts@ == alerts_before_row(p, d, i as int),
        decreases n - i,
    {
        let row = &distances[i];
        assert(row@ == d[i as int]);
        let mut j: usize = i + 1;
        while j < n
            invariant
                n == p.len(),
                p == planes@,
                i < n,
                i + 1 <= j <= n,
                row@ == d[i as int],
                row@.len() == n,
                alerts@ == alerts_before_row(p, d, i as int) + alerts_in_row(p, d, i as int, j as int),
            decreases n - j,
        {
            let found = check_alert_between_planes(&planes[i], &planes[j], row[j]);
            match found {
                Some(alert) => {
                    alerts.push(alert);
                    assert(alerts@ =~= alerts_before_row(p, d, i as int) + alerts_in_row(
                        p,
                        d,
                        i as int,
                        j + 1,
                    ));
                },
                None => {},
            }
            j += 1;
        }
        i += 1;
    }
    alerts
}

/// The alert `a` is the one reported for some pair `i < j` of the snapshot.
pub open spec fn from_pair(p: Seq<Airplane>, d: Seq<Seq<u64>>, a: Alert) -> bool {
    exists|i: int, j: int|
        0 <= i < j < p.len() && in_conflict(p[i], p[j], d[i][j]) && a == #[trigger] alert_of(
            p[i],
            p[j],
            d[i][j],
        )
}

proof fn lemma_row_shape(p: Seq<Airplane>, d: Seq<Seq<u64>>, i: int, j: int)
    requires
        0 <= i,
        j <= p.len(),
    ensures
        alerts_in_row(p, d, i, j).len() <= if j > i { j - i - 1 } else { 0 },
        forall|k: int|
            0 <= k < alerts_in_row(p, d, i, j).len() ==> from_pair(
                p,
                d,
                #[trigger] alerts_in_row(p, d, i, j)[k],
            ),
    decreases j - i,
{
    if j > i + 1 {
        lemma_row_shape(p, d, i, j - 1);
        let prev = alerts_in_row(p, d, i, j - 1);
        if in_conflict(p[i], p[j - 1], d[i][j - 1]) {
            let a = alert_of(p[i], p[j - 1], d[i][j - 1]);
            assert(from_pair(p, d, a));
            assert forall|k: int| 0 <= k < prev.push(a).len() implies from_pair(
                p,
                d,
                #[trigger] prev.push(a)[k],
            ) by {
                if k < prev.len() {
                    assert(prev.push(a)[k] == prev[k]);
                }
            }
        }
    }
}

proof fn lemma_before_shape(p: Seq<Airplane>, d: Seq<Seq<u64>>, m: int)
    requires
        0 <= m <= p.len(),
    ensures
        2 * alerts_before_row(p, d, m).len() <= 2 * m * p.len() - m * (m + 1),
        forall|k: int|
            0 <= k < alerts_before_row(p, d, m).len() ==> from_pair(
                p,
                d,
                #[trigger] alerts_before_row(p, d, m)[k],
            ),
    decreases m,
{
    if m > 0 {
        let l = p.len() as int;
        lemma_before_shape(p, d, m - 1);
        lemma_row_shape(p, d, m - 1, l);
        let prev = alerts_before_row(p, d, m - 1);
        let row = alerts_in_row(p, d, m - 1, l);
        assert(2 * (m - 1) * l - (m - 1) * m + 2 * (l - m) == 2 * m * l - m * (m + 1))
            by (nonlinear_arith);
        assert forall|k: int| 0 <= k < (prev + row).len() implies from_pair(
            p,
            d,
            #[trigger] (prev + row)[k],
        ) by {
            if k < prev.len() {
                assert((prev + row)[k] == prev[k]);
            } else {
                assert((prev + row)[k] == row[k - prev.len()]);
            }
        }
    }
}

/// A scan of `n` aircraft reports at most `n(n-1)/2` alerts; each comes from a
/// pair `i < j` of the snapshot that meets the alert condition; where callsigns
/// are unique, each names two distinct callsigns and no pair is reported in both
/// orders.
pub proof fn lemma_scan_shape(p: Seq<Airplane>, d: Seq<Seq<u64>>)
    ensures
        2 * scan_spec(p, d).len() <= p.len() * (p.len() - 1),
        forall|k: int|
            0 <= k < scan_spec(p, d).len() ==> from_pair(p, d, #[trigger] scan_spec(p, d)[k]),
        callsigns_unique(p) ==> forall|k: int|
            0 <= k < scan_spec(p, d).len() ==> (#[trigger] scan_spec(p, d)[k]).plane1_callsign@
                != scan_spec(p, d)[k].plane2_callsign@,
        callsigns_unique(p) ==> forall|k1: int, k2: int|
            0 <= k1 < scan_spec(p, d).len() && 0 <= k2 < scan_spec(p, d).len() ==> !(
            (#[trigger] scan_spec(p, d)[k1]).plane1_callsign@ == (#[trigger] scan_spec(
                p,
                d,
            )[k2]).plane2_callsign@ && scan_spec(p, d)[k1].plane2_callsign@ == scan_spec(
                p,
                d,
            )[k2].plane1_callsign@),
{
    let l = p.len() as int;
    let r = scan_spec(p, d);
    lemma_before_shape(p, d, l);
    assert(2 * l * l - l * (l + 1) == l * (l - 1)) by (nonlinear_arith);
    if callsigns_unique(p) {
        assert forall|k: int| 0 <= k < r.len() implies (#[trigger] r[k]).plane1_callsign@
            != r[k].plane2_callsign@ by {
            assert(from_pair(p, d, r[k]));
            let (i, j) = choose|i: int, j: int|
                0 <= i < j < p.len() && in_conflict(p[i], p[j], d[i][j]) && r[k]
                    == #[trigger] alert_of(p[i], p[j], d[i][j]);
            assert(p[i].callsign@ != p[j].callsign@);
        }
        assert forall|k1: int, k2: int| 0 <= k1 < r.len() && 0 <= k2 < r.len() implies !(
        (#[trigger] r[k1]).plane1_callsign@ == (#[trigger] r[k2]).plane2_callsign@
            && r[k1].plane2_callsign@ == r[k2].plane1_callsign@) by {
            assert(from_pair(p, d, r[k1]));
            assert(from_pair(p, d, r[k2]));
            let (i1, j1) = choose|i: int, j: int|
                0 <= i < j < p.len() && in_conflict(p[i], p[j], d[i][j]) && r[k1]
                    == #[trigger] alert_of(p[i], p[j], d[i][j]);
            let (i2, j2) = choose|i: int, j: int|
                0 <= i < j < p.len() && in_conflict(p[i], p[j], d[i][j]) && r[k2]
                    == #[trigger] alert_of(p[i], p[j], d[i][j]);
            if r[k1].plane1_callsign@ == r[k2].plane2_callsign@ && r[k1].plane2_callsign@
                == r[k2].plane1_callsign@ {
                assert(p[i1].callsign@ == p[j2].callsign@);
                assert(p[j1].callsign@ == p[i2].callsign@);
                assert(i1 == j2);
                assert(j1 == i2);
            }
        }
    }
}

/// Scanning one snapshot twice gives the same alerts, in the same order.
pub proof fn lemma_scan_deterministic(p: Seq<Airplane>, d: Seq<Seq<u64>>, r1: Seq<Alert>, r2: Seq<
    Alert>)
    requires
        r1 == scan_spec(p, d),
        r2 == scan_spec(p, d),
    ensures
        r1 == r2,
{
}

} // verus!
