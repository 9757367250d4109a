//! Simulated aircraft around an airport: position propagation, pairwise
//! conflict detection and seeding of a demo population.
//!
//! Positions are held in millionths of a degree, distances in thousandths of a
//! nautical mile. The trigonometry (great-circle distance, the north and east
//! components of a course, the polar scatter of new aircraft) is supplied by the
//! caller as integers; everything that follows from it is computed and proved
//! here.
mod conflict;
mod model;
mod motion;
mod scene;

pub use conflict::{
    alert_of, alerts_before_row, alerts_in_row, altitude_diff_ft, check_alert_between_planes,
    check_all_alerts, from_pair, in_conflict, lemma_scan_deterministic, lemma_scan_shape,
    scan_spec, well_formed_distances, ALERT_ALTITUDE_DIFF_FT, ALERT_DISTANCE_MNM,
};
pub use model::{callsigns_unique, Airplane, Alert};
pub use motion::{
    calculate_airplane_positions, lemma_advance_keeps, moved, moved_latitude, moved_longitude,
    offset_e6, positions_fit, Course,
};
pub use scene::{
    aircraft_type_name, callsign_of, catalog_type, generate_demo_airplanes, is_first_test_plane,
    is_random_aircraft, is_second_test_plane, is_test_callsign, lemma_callsign_injective,
    make_callsign, Position, AIRCRAFT_TYPE_COUNT, CALLSIGN_CODES,
};
