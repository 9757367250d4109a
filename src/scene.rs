use vstd::prelude::*;

use crate::model::{callsigns_unique, Airplane};

verus! {

broadcast use vstd::string::group_string_axioms;

/// Number of distinct random callsigns: three letters, then three digits.
pub const CALLSIGN_CODES: u32 = 17_576_000;

/// Number of labels in the aircraft type catalog.
pub const AIRCRAFT_TYPE_COUNT: u32 = 12;

/// Where a random aircraft is placed, in millionths of a degree.
#[derive(Debug, Clone, Copy)]
pub struct Position {
    pub latitude_e6: i64,
    pub longitude_e6: i64,
}

/// The upper-case letter with index `k`, `A` being 0.
pub open spec fn letter(k: int) -> char {
    (65 + k) as u8 as char
}

/// The decimal digit with value `k`.
pub open spec fn digit(k: int) -> char {
    (48 + k) as u8 as char
}

/// The callsign with number `code`: `code / 1000` in base 26 as three letters,
/// then `code % 1000` as three digits.
pub open spec fn callsign_of(code: int) -> Seq<char> {
    let l = code / 1000;
    let n = code % 1000;
    seq![letter(l / 676), letter(l / 26 % 26), letter(l % 26), digit(n / 100), digit(n / 10 % 10), digit(n % 10)]
}

/// The callsigns of the two fixed aircraft start with this mark.
pub open spec fn is_test_callsign(s: Seq<char>) -> bool {
    s.len() >= 4 && s[0] == 'T' && s[1] == 'E' && s[2] == 'S' && s[3] == 'T'
}

/// The label of the aircraft type with index `k` in the catalog.
pub open spec fn catalog_type(k: int) -> Seq<char> {
    if k == 0 {
        "Boeing 737-800"@
    } else if k == 1 {
        "Airbus A320"@
    } else if k == 2 {
        "Boeing 777-200"@
    } else if k == 3 {
        "Airbus A319"@
    } else if k == 4 {
        "Boeing 787-8"@
    } else if k == 5 {
        "Airbus A330"@
    } else if k == 6 {
        "Embraer E190"@
    } else if k == 7 {
        "Boeing 757-200"@
    } else if k == 8 {
        "Airbus A321"@
    } else if k == 9 {
        "ATR 72-600"@
    } else if k == 10 {
        "Bombardier CRJ900"@
    } else {
        "Boeing 767-300"@
    }
}

/// Relies on rand's `Rng::random_range` on the thread-local generator: a value
/// drawn from `0..n`, which it panics on when empty.
#[verifier::external_body]
fn random_below(n: u32) -> (r: u32)
    requires
        n > 0,
    ensures
        r < n,
{
    rand::Rng::random_range(&mut rand::rng(), 0..n)
}

/// Relies on std's `String: FromIterator<char>`: the characters in order.
#[verifier::external_body]
fn string_from_chars(chars: &Vec<char>) -> (r: String)
    ensures
        r@ == chars@,
{
    chars.iter().collect()
}

/// Writes the callsign with number `code`.
pub fn make_callsign(code: u32) -> (r: String)
    requires
        code < CALLSIGN_CODES,
    ensures
        r@ == callsign_of(code as int),
{
    let l = code / 1000;
    let n = code % 1000;
    let chars = vec![
        (65 + (l / 676) as u8) as char,
        (65 + (l / 26 % 26) as u8) as char,
        (65 + (l % 26) as u8) as char,
        (48 + (n / 100) as u8) as char,
        (48 + (n / 10 % 10) as u8) as char,
        (48 + (n % 10) as u8) as char,
    ];
    let r = string_from_chars(&chars);
    assert(r@ =~= callsign_of(code as int));
    r
}

/// Distinct numbers give distinct callsigns.
pub proof fn lemma_callsign_injective(a: int, b: int)
    requires
        0 <= a < CALLSIGN_CODES,
        0 <= b < CALLSIGN_CODES,
        callsign_of(a) == callsign_of(b),
    ensures
        a == b,
{
    let sa = callsign_of(a);
    let sb = callsign_of(b);
    let la = a / 1000;
    let lb = b / 1000;
    assert(sa[0] as u32 == sb[0] as u32);
    assert(sa[1] as u32 == sb[1] as u32);
    assert(sa[2] as u32 == sb[2] as u32);
    assert(sa[3] as u32 == sb[3] as u32);
    assert(sa[4] as u32 == sb[4] as u32);
    assert(sa[5] as u32 == sb[5] as u32);
    vstd::arithmetic::div_mod::lemma_fundamental_div_mod(a, 1000);
    vstd::arithmetic::div_mod::lemma_fundamental_div_mod(b, 1000);
    vstd::arithmetic::div_mod::lemma_fundamental_div_mod(la, 26);
    vstd::arithmetic::div_mod::lemma_fundamental_div_mod(lb, 26);
    vstd::arithmetic::div_mod::lemma_fundamental_div_mod(la / 26, 26);
    vstd::arithmetic::div_mod::lemma_fundamental_div_mod(lb / 26, 26);
    vstd::arithmetic::div_mod::lemma_div_denominator(la, 26, 26);
    vstd::arithmetic::div_mod::lemma_div_denominator(lb, 26, 26);
    let na = a % 1000;
    let nb = b % 1000;
    vstd::arithmetic::div_mod::lemma_fundamental_div_mod(na, 10);
    vstd::arithmetic::div_mod::lemma_fundamental_div_mod(nb, 10);
    vstd::arithmetic::div_mod::lemma_fundamental_div_mod(na / 10, 10);
    vstd::arithmetic::div_mod::lemma_fundamental_div_mod(nb / 10, 10);
    vstd::arithmetic::div_mod::lemma_div_denominator(na, 10, 10);
    vstd::arithmetic::div_mod::lemma_div_denominator(nb, 10, 10);
}


/// How far `x` lies after `start` when counting upward and wrapping at the end
/// of the code range.
pub open spec fn probe_distance(start: int, x: int) -> int {
    if x >= start {
        x - start
    } else {
        x - start + CALLSIGN_CODES
    }
}

fn is_used(used: &Vec<u32>, code: u32) -> (r: bool)
    ensures
        r == used@.contains(code),
{
    let mut i: usize = 0;
    while i < used.len()
        invariant
            i <= used@.len(),
            forall|k: int| 0 <= k < i ==> used@[k] != code,
        decreases used@.len() - i,
    {
        if used[i] == code {
            return true;
        }
        i += 1;
    }
    false
}

/// The first code not in `used`, counting upward from `start` and wrapping.
fn first_free_code(used: &Vec<u32>, start: u32) -> (r: u32)
    requires
        used@.len() < CALLSIGN_CODES,
        start < CALLSIGN_CODES,
    ensures
        r < CALLSIGN_CODES,
        !used@.contains(r),
{
    let mut code = start;
    let mut tried: usize = 0;
    let ghost mut probed: Set<u32> = Set::empty();
    proof {
        used@.lemma_cardinality_of_set();
    }
    while is_used(used, code)
        invariant
            used@.len() < CALLSIGN_CODES,
            start < CALLSIGN_CODES,
            code < CALLSIGN_CODES,
            tried <= used@.len(),
            probe_distance(start as int, code as int) == tried,
            probed.finite(),
            probed.len() == tried,
            probed.subset_of(used@.to_set()),
            used@.to_set().len() <= used@.len(),
            forall|x: u32| #[trigger]
                probed.contains(x) ==> x < CALLSIGN_CODES && probe_distance(start as int, x as int)
                    < tried,
        decreases used@.len() - tried,
    {
        proof {
            assert(!probed.contains(code));
            assert(used@.to_set().contains(code));
            probed = probed.insert(code);
            vstd::set_lib::lemma_len_subset(probed, used@.to_set());
        }
        code = if code + 1 == CALLSIGN_CODES {
            0
        } else {
            code + 1
        };
        tried += 1;
    }
    code
}


/// Writes the label of the aircraft type with index `k` in the catalog.
pub fn aircraft_type_name(k: u32) -> (r: String)
    requires
        k < AIRCRAFT_TYPE_COUNT,
    ensures
        r@ == catalog_type(k as int),
{
    if k == 0 {
        "Boeing 737-800".to_string()
    } else if k == 1 {
        "Airbus A320".to_string()
    } else if k == 2 {
        "Boeing 777-200".to_string()
    } else if k == 3 {
        "Airbus A319".to_string()
    } else if k == 4 {
        "Boeing 787-8".to_string()
    } else if k == 5 {
        "Airbus A330".to_string()
    } else if k == 6 {
        "Embraer E190".to_string()
    } else if k == 7 {
        "Boeing 757-200".to_string()
    } else if k == 8 {
        "Airbus A321".to_string()
    } else if k == 9 {
        "ATR 72-600".to_string()
    } else if k == 10 {
        "Bombardier CRJ900".to_string()
    } else {
        "Boeing 767-300".to_string()
    }
}

/// The first fixed aircraft: north of the reference point, heading south.
pub open spec fn is_first_test_plane(a: Airplane) -> bool {
    &&& a.callsign@ == "TEST001"@
    &&& a.aircraft_type@ == "Boeing 737-800"@
    &&& a.latitude_e6 == 48_288_158
    &&& a.longitude_e6 == 14_191_473
    &&& a.altitude_ft == 30000
    &&& a.speed_kn == 120
    &&& a.heading_deg == 180
}

/// The second fixed aircraft: south of the reference point, heading north,
/// 500 ft below the first.
pub open spec fn is_second_test_plane(a: Airplane) -> bool {
    &&& a.callsign@ == "TEST002"@
    &&& a.aircraft_type@ == "Airbus A320"@
    &&& a.latitude_e6 == 48_188_992
    &&& a.longitude_e6 == 14_191_473
    &&& a.altitude_ft == 29500
    &&& a.speed_kn == 120
    &&& a.heading_deg == 0
}

/// A randomly drawn aircraft placed at `pos`.
pub open spec fn is_random_aircraft(a: Airplane, pos: Position) -> bool {
    &&& exists|code: int| 0 <= code < CALLSIGN_CODES && a.callsign@ == #[trigger] callsign_of(code)
    &&& exists|k: int|
        0 <= k < AIRCRAFT_TYPE_COUNT && a.aircraft_type@ == #[trigger] catalog_type(k)
    &&& a.latitude_e6 == pos.latitude_e6
    &&& a.longitude_e6 == pos.longitude_e6
    &&& 15000 <= a.altitude_ft < 35000
    &&& 80 <= a.speed_kn < 450
    &&& a.heading_deg < 360
}

proof fn lemma_random_callsign_not_test(code: int)
    requires
        0 <= code < CALLSIGN_CODES,
    ensures
        !is_test_callsign(callsign_of(code)),
        callsign_of(code).len() == 6,
{
    let s = callsign_of(code);
    assert(s[3] as u32 == 48 + code % 1000 / 100);
}

/// Seeds a population: the two fixed aircraft, then one random aircraft at each
/// of `positions`, with a random unique callsign, a random type of the catalog,
/// an altitude in `[15000, 35000)` ft, a speed in `[80, 450)` kn and a heading
/// in `[0, 360)` degrees.
pub fn generate_demo_airplanes(positions: &Vec<Position>) -> (r: Vec<Airplane>)
    requires
        positions@.len() < CALLSIGN_CODES,
    ensures
        r@.len() == positions@.len() + 2,
        is_first_test_plane(r@[0]),
        is_second_test_plane(r@[1]),
        forall|i: int|
            2 <= i < r@.len() ==> is_random_aircraft(#[trigger] r@[i], positions@[i - 2]),
        callsigns_unique(r@),
        forall|i: int|
            0 <= i < r@.len() ==> (is_test_callsign(#[trigger] r@[i].callsign@) <==> i < 2),
{
    proof {
        reveal_strlit("TEST001");
        reveal_strlit("TEST002");
    }
    let mut planes: Vec<Airplane> = Vec::new();
    planes.push(
        Airplane {
            callsign: "TEST001".to_string(),
            aircraft_type: "Boeing 737-800".to_string(),
            latitude_e6: 48_288_158,
            longitude_e6: 14_191_473,
            altitude_ft: 30000,
            speed_kn: 120,
            heading_deg: 180,
        },
    );
    planes.push(
        Airplane {
            callsign: "TEST002".to_string(),
            aircraft_type: "Airbus A320".to_string(),
            latitude_e6: 48_188_992,
            longitude_e6: 14_191_473,
            altitude_ft: 29500,
            speed_kn: 120,
            heading_deg: 0,
        },
    );
    let mut used: Vec<u32> = Vec::new();
    let mut i: usize = 0;
    while i < positions.len()
        invariant
            positions@.len() < CALLSIGN_CODES,
            i <= positions@.len(),
            used@.len() == i,
            planes@.len() == i + 2,
            is_first_test_plane(planes@[0]),
            is_second_test_plane(planes@[1]),
            forall|k: int| 0 <= k < i ==> #[trigger] used@[k] < CALLSIGN_CODES,
            forall|a: int, b: int| 0 <= a < b < i ==> used@[a] != used@[b],
            forall|k: int|
                0 <= k < i ==> (#[trigger] planes@[k + 2]).callsign@ == callsign_of(
                    used@[k] as int,
                ),
            forall|k: int|
                2 <= k < i + 2 ==> is_random_aircraft(#[trigger] planes@[k], positions@[k - 2]),
        decreases positions@.len() - i,
    {
        let code = first_free_code(&used, random_below(CALLSIGN_CODES));
        let callsign = make_callsign(code);
        let kind = random_below(AIRCRAFT_TYPE_COUNT);
        let aircraft_type = aircraft_type_name(kind);
        let altitude_ft = 15000 + random_below(20000) as i64;
        let speed_kn = 80 + random_below(370);
        let heading_deg = random_below(360);
        let pos = positions[i];
        let plane = Airplane {
            callsign,
            aircraft_type,
            latitude_e6: pos.latitude_e6,
            longitude_e6: pos.longitude_e6,
            altitude_ft,
            speed_kn,
            heading_deg,
        };
        assert(is_random_aircraft(plane, positions@[i as int]));
        let ghost old_used = used@;
        let ghost old_planes = planes@;
        planes.push(plane);
        used.push(code);
        proof {
            assert forall|a: int, b: int| 0 <= a < b < i + 1 implies used@[a] != used@[b] by {
                if b == i {
                    assert(old_used.contains(used@[a]));
                }
            }
            assert forall|k: int| 0 <= k < i + 1 implies (#[trigger] planes@[k + 2]).callsign@
                == callsign_of(used@[k] as int) by {
                if k < i {
                    assert(planes@[k + 2] == old_planes[k + 2]);
                }
            }
        }
        i += 1;
    }
    proof {
        let r = planes@;
        let n = positions@.len() as int;
        assert forall|a: int, b: int|
            0 <= a < r.len() && 0 <= b < r.len() && a != b implies #[trigger] r[a].callsign@
            != #[trigger] r[b].callsign@ by {
            if a >= 2 {
                assert(r[(a - 2) + 2] == r[a]);
                lemma_random_callsign_not_test(used@[a - 2] as int);
            }
            if b >= 2 {
                assert(r[(b - 2) + 2] == r[b]);
                lemma_random_callsign_not_test(used@[b - 2] as int);
            }
            if a >= 2 && b >= 2 && r[a].callsign@ == r[b].callsign@ {
                lemma_callsign_injective(used@[a - 2] as int, used@[b - 2] as int);
                if a < b {
                    assert(used@[a - 2] != used@[b - 2]);
                } else {
                    assert(used@[b - 2] != used@[a - 2]);
                }
            }
            if a < 2 && b < 2 {
                assert(r[a].callsign@[6] != r[b].callsign@[6]);
            }
        }
        assert forall|k: int| 0 <= k < r.len() implies (is_test_callsign(
            #[trigger] r[k].callsign@,
        ) <==> k < 2) by {
            if k >= 2 {
                assert(r[(k - 2) + 2] == r[k]);
                lemma_random_callsign_not_test(used@[k - 2] as int);
            }
        }
    }
    planes
}

} // verus!
