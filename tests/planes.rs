use fc_planes::{
    aircraft_type_name, calculate_airplane_positions, check_alert_between_planes,
    check_all_alerts, generate_demo_airplanes, make_callsign, Airplane, Course, Position,
};

fn plane(callsign: &str, aircraft_type: &str, lat_e6: i64, lng_e6: i64, alt: i64, speed: u32, heading: u32) -> Airplane {
    Airplane {
        callsign: callsign.to_string(),
        aircraft_type: aircraft_type.to_string(),
        latitude_e6: lat_e6,
        longitude_e6: lng_e6,
        altitude_ft: alt,
        speed_kn: speed,
        heading_deg: heading,
    }
}

fn scatter(n: usize) -> Vec<Position> {
    (0..n)
        .map(|k| Position { latitude_e6: 48_000_000 + k as i64 * 10_000, longitude_e6: 14_000_000 - k as i64 * 7_000 })
        .collect()
}

fn matrix(n: usize, d: u64) -> Vec<Vec<u64>> {
    vec![vec![d; n]; n]
}

#[test]
fn test_alert_detection() {
    let plane1 = plane("TEST1", "Boeing 737", 48_250_000, 14_191_473, 30000, 120, 0);
    // 0.015 degrees of latitude apart: about 0.9006 nm on the great circle
    let plane2_close = plane("TEST2", "Airbus A320", 48_265_000, 14_191_473, 30500, 120, 180);
    // 0.1 degrees of latitude apart: about 6.004 nm
    let plane3_far = plane("TEST3", "Boeing 777", 48_350_000, 14_191_473, 30500, 120, 90);

    assert!(check_alert_between_planes(&plane1, &plane2_close, 901).is_some());
    assert!(check_alert_between_planes(&plane1, &plane3_far, 6005).is_none());
}

#[test]
fn test_airplane_generation() {
    let planes = generate_demo_airplanes(&scatter(18));
    assert_eq!(planes.len(), 20);

    let test_planes: Vec<_> = planes.iter().filter(|p| p.callsign.starts_with("TEST")).collect();
    assert_eq!(test_planes.len(), 2);

    let mut callsigns: Vec<_> = planes.iter().map(|p| &p.callsign).collect();
    callsigns.sort();
    callsigns.dedup();
    assert_eq!(callsigns.len(), 20);
}

#[test]
fn alert_fields_are_reported() {
    let a = plane("AAA111", "x", 0, 0, 30000, 100, 0);
    let b = plane("BBB222", "y", 0, 0, 30500, 100, 0);
    let alert = check_alert_between_planes(&a, &b, 901).unwrap();
    assert_eq!(alert.plane1_callsign, "AAA111");
    assert_eq!(alert.plane2_callsign, "BBB222");
    assert_eq!(alert.distance_mnm, 901);
    assert_eq!(alert.altitude_diff_ft, 500);
    let swapped = check_alert_between_planes(&b, &a, 901).unwrap();
    assert_eq!(swapped.plane1_callsign, "BBB222");
    assert_eq!(swapped.altitude_diff_ft, 500);
}

#[test]
fn distance_threshold_is_inclusive() {
    let a = plane("A", "x", 0, 0, 10000, 100, 0);
    let b = plane("B", "x", 0, 0, 10000, 100, 0);
    assert!(check_alert_between_planes(&a, &b, 5000).is_some());
    assert!(check_alert_between_planes(&a, &b, 5001).is_none());
    assert!(check_alert_between_planes(&a, &b, 0).is_some());
}

#[test]
fn altitude_threshold_is_strict() {
    let a = plane("A", "x", 0, 0, 10000, 100, 0);
    let at_limit = plane("B", "x", 0, 0, 11000, 100, 0);
    let below_limit = plane("C", "x", 0, 0, 9001, 100, 0);
    assert!(check_alert_between_planes(&a, &at_limit, 100).is_none());
    assert!(check_alert_between_planes(&at_limit, &a, 100).is_none());
    assert_eq!(check_alert_between_planes(&a, &below_limit, 100).unwrap().altitude_diff_ft, 999);
}

#[test]
fn altitude_difference_of_extreme_altitudes() {
    let a = plane("A", "x", 0, 0, i64::MIN, 0, 0);
    let b = plane("B", "x", 0, 0, i64::MAX, 0, 0);
    assert!(check_alert_between_planes(&a, &b, 0).is_none());
}

#[test]
fn scan_of_empty_and_single_population() {
    assert!(check_all_alerts(&vec![], &vec![]).is_empty());
    let one = vec![plane("A", "x", 0, 0, 0, 0, 0)];
    assert!(check_all_alerts(&one, &matrix(1, 0)).is_empty());
}

#[test]
fn scan_reports_pairs_in_index_order() {
    let planes = vec![
        plane("A", "x", 0, 0, 30000, 100, 0),
        plane("B", "x", 0, 0, 30200, 100, 0),
        plane("C", "x", 0, 0, 35000, 100, 0),
        plane("D", "x", 0, 0, 30400, 100, 0),
    ];
    let mut d = matrix(4, 1000);
    d[1][3] = 7000;
    let alerts = check_all_alerts(&planes, &d);
    let pairs: Vec<(String, String)> = alerts
        .iter()
        .map(|a| (a.plane1_callsign.clone(), a.plane2_callsign.clone()))
        .collect();
    assert_eq!(
        pairs,
        vec![("A".to_string(), "B".to_string()), ("A".to_string(), "D".to_string())]
    );
    assert_eq!(alerts[1].altitude_diff_ft, 400);
}

#[test]
fn scan_count_is_at_most_the_number_of_pairs() {
    let planes: Vec<Airplane> = (0..6).map(|k| plane(&format!("P{}", k), "x", 0, 0, 20000, 100, 0)).collect();
    let alerts = check_all_alerts(&planes, &matrix(6, 10));
    assert_eq!(alerts.len(), 15);
    for a in &alerts {
        assert_ne!(a.plane1_callsign, a.plane2_callsign);
        assert!(!alerts
            .iter()
            .any(|b| b.plane1_callsign == a.plane2_callsign && b.plane2_callsign == a.plane1_callsign));
    }
}

#[test]
fn scan_twice_gives_the_same_alerts() {
    let planes = generate_demo_airplanes(&scatter(10));
    let d = matrix(planes.len(), 4000);
    let first = check_all_alerts(&planes, &d);
    let second = check_all_alerts(&planes, &d);
    assert_eq!(first.len(), second.len());
    for (a, b) in first.iter().zip(second.iter()) {
        assert_eq!(a.plane1_callsign, b.plane1_callsign);
        assert_eq!(a.plane2_callsign, b.plane2_callsign);
        assert_eq!(a.distance_mnm, b.distance_mnm);
        assert_eq!(a.altitude_diff_ft, b.altitude_diff_ft);
    }
    // the two fixed aircraft are 500 ft apart
    assert_eq!(first[0].plane1_callsign, "TEST001");
    assert_eq!(first[0].plane2_callsign, "TEST002");
    assert_eq!(first[0].altitude_diff_ft, 500);
}

#[test]
fn advance_moves_along_the_course() {
    let planes = vec![
        plane("N", "x", 48_000_000, 14_000_000, 30000, 120, 0),
        plane("S", "y", 48_000_000, 14_000_000, 25000, 120, 180),
    ];
    let courses = vec![
        Course { north_ppm: 1_000_000, east_ppm: 0 },
        Course { north_ppm: -1_000_000, east_ppm: 1_500_000 },
    ];
    // 120 kn for one hour is 120 nm, that is 2 degrees at 60 nm per degree
    let moved = calculate_airplane_positions(&planes, 3600, &courses);
    assert_eq!(moved.len(), 2);
    assert_eq!(moved[0].latitude_e6, 50_000_000);
    assert_eq!(moved[0].longitude_e6, 14_000_000);
    assert_eq!(moved[1].latitude_e6, 46_000_000);
    assert_eq!(moved[1].longitude_e6, 17_000_000);
    assert_eq!(moved[1].callsign, "S");
    assert_eq!(moved[1].aircraft_type, "y");
    assert_eq!(moved[1].altitude_ft, 25000);
    assert_eq!(moved[1].speed_kn, 120);
    assert_eq!(moved[1].heading_deg, 180);
}

#[test]
fn advance_truncates_toward_zero() {
    let planes = vec![plane("A", "x", 0, 0, 0, 1, 0)];
    // 1 kn for 1 s along one millionth: 1/216000 of a millionth of a degree
    let courses = vec![Course { north_ppm: -1, east_ppm: 1 }];
    let moved = calculate_airplane_positions(&planes, 1, &courses);
    assert_eq!(moved[0].latitude_e6, 0);
    assert_eq!(moved[0].longitude_e6, 0);
    let courses = vec![Course { north_ppm: -300_000, east_ppm: 300_000 }];
    let moved = calculate_airplane_positions(&planes, 1, &courses);
    assert_eq!(moved[0].latitude_e6, -1);
    assert_eq!(moved[0].longitude_e6, 1);
}

#[test]
fn advance_by_zero_keeps_everything() {
    let planes = generate_demo_airplanes(&scatter(5));
    let courses = vec![Course { north_ppm: 700_000, east_ppm: -900_000 }; planes.len()];
    let moved = calculate_airplane_positions(&planes, 0, &courses);
    assert_eq!(moved.len(), planes.len());
    for (a, b) in planes.iter().zip(moved.iter()) {
        assert_eq!(a.callsign, b.callsign);
        assert_eq!(a.aircraft_type, b.aircraft_type);
        assert_eq!(a.latitude_e6, b.latitude_e6);
        assert_eq!(a.longitude_e6, b.longitude_e6);
        assert_eq!(a.altitude_ft, b.altitude_ft);
        assert_eq!(a.speed_kn, b.speed_kn);
        assert_eq!(a.heading_deg, b.heading_deg);
    }
}

#[test]
fn generation_places_fixed_and_random_aircraft() {
    let positions = scatter(18);
    let planes = generate_demo_airplanes(&positions);
    assert_eq!(planes[0].callsign, "TEST001");
    assert_eq!(planes[0].aircraft_type, "Boeing 737-800");
    assert_eq!(planes[0].latitude_e6, 48_288_158);
    assert_eq!(planes[0].heading_deg, 180);
    assert_eq!(planes[1].callsign, "TEST002");
    assert_eq!(planes[1].latitude_e6, 48_188_992);
    assert_eq!(planes[1].altitude_ft, 29500);
    assert_eq!(planes[1].heading_deg, 0);
    for (p, pos) in planes[2..].iter().zip(positions.iter()) {
        assert_eq!(p.latitude_e6, pos.latitude_e6);
        assert_eq!(p.longitude_e6, pos.longitude_e6);
        assert!((15000..35000).contains(&p.altitude_ft));
        assert!((80..450).contains(&p.speed_kn));
        assert!(p.heading_deg < 360);
        let c: Vec<char> = p.callsign.chars().collect();
        assert_eq!(c.len(), 6);
        assert!(c[..3].iter().all(|x| x.is_ascii_uppercase()));
        assert!(c[3..].iter().all(|x| x.is_ascii_digit()));
    }
    assert_eq!(generate_demo_airplanes(&vec![]).len(), 2);
}

#[test]
fn callsigns_are_written_from_their_number() {
    assert_eq!(make_callsign(0), "AAA000");
    assert_eq!(make_callsign(17_575_999), "ZZZ999");
    assert_eq!(make_callsign(28_042), "ABC042");
}

#[test]
fn catalog_labels() {
    assert_eq!(aircraft_type_name(0), "Boeing 737-800");
    assert_eq!(aircraft_type_name(9), "ATR 72-600");
    assert_eq!(aircraft_type_name(11), "Boeing 767-300");
}
