//! The sun is computed with floating point here; the library takes positions and
//! distances as numbers.

use genkan::dynamic_wallpaper::clock::{CivilDate, CivilTime, ClockSnapshot};
use genkan::dynamic_wallpaper::model::{
    Appearance, ImageReference, Number, Schedule, SolarPoint, SolarPosition, TimePoint,
};
use genkan::dynamic_wallpaper::solar::{
    self, coarse_second, nearer, refined_second, refinement_window, sampled_moments,
    utc_moment_at, SolarError,
    MINUTES_PER_DAY, SECONDS_PER_DAY,
};

#[derive(Clone, Copy)]
struct Location {
    latitude: f64,
    longitude: f64,
}

impl Location {
    fn latitude_degrees(self) -> f64 {
        self.latitude
    }

    fn longitude_degrees(self) -> f64 {
        self.longitude
    }
}

trait Degrees {
    fn altitude_degrees(&self) -> f64;
    fn azimuth_degrees(&self) -> f64;
}

impl Degrees for SolarPosition {
    fn altitude_degrees(&self) -> f64 {
        f64::from_bits(self.altitude_bits)
    }

    fn azimuth_degrees(&self) -> f64 {
        f64::from_bits(self.azimuth_bits)
    }
}

fn position(altitude: f64, azimuth: f64) -> SolarPosition {
    SolarPosition::new(
        Number::Real(altitude.to_bits()),
        Number::Real(azimuth.to_bits()),
    )
    .unwrap()
}

fn solar_position(location: Location, clock: ClockSnapshot, second: u32) -> SolarPosition {
    let utc_seconds = utc_moment_at(clock, second) as f64 / 1_000_000_000.0;
    let (altitude, azimuth) = solar_altitude_azimuth(location, utc_seconds);
    position(altitude.clamp(-90.0, 90.0), normalize_degrees(azimuth))
}

fn normalize_degrees(value: f64) -> f64 {
    let value = value.rem_euclid(360.0);
    if value >= 360.0 {
        0.0
    } else {
        value
    }
}

fn unit_vector(position: SolarPosition) -> [f64; 3] {
    let altitude = position.altitude_degrees().to_radians();
    let azimuth = position.azimuth_degrees().to_radians();
    [
        altitude.cos() * azimuth.sin(),
        altitude.cos() * azimuth.cos(),
        altitude.sin(),
    ]
}

fn angular_distance(left: [f64; 3], right: [f64; 3]) -> f64 {
    let dot = left[0] * right[0] + left[1] * right[1] + left[2] * right[2];
    dot.clamp(-1.0, 1.0).acos()
}

fn trajectory(
    location: Location,
    clock: ClockSnapshot,
) -> Result<Vec<(u32, SolarPosition)>, SolarError> {
    let positions = (0..MINUTES_PER_DAY)
        .map(|minute| solar_position(location, clock, minute * 60))
        .collect();
    solar::trajectory(&positions)
}

fn nearest_second(location: Location, clock: ClockSnapshot, target: [f64; 3]) -> u32 {
    let distance = |second: u32| {
        angular_distance(unit_vector(solar_position(location, clock, second)), target).to_bits()
    };
    let coarse = coarse_second(&(0..MINUTES_PER_DAY).map(|minute| distance(minute * 60)).collect())
        .unwrap();
    let (start, end) = refinement_window(coarse);
    refined_second(coarse, &(start..=end).map(distance).collect()).unwrap()
}

fn map_schedule(
    schedule: &Schedule<SolarPoint>,
    location: Location,
    clock: ClockSnapshot,
) -> Result<Schedule<TimePoint>, SolarError> {
    let seconds = schedule
        .points()
        .iter()
        .map(|point| nearest_second(location, clock, unit_vector(point.position)))
        .collect();
    solar::map_schedule(schedule, &seconds)
}

fn value(point: &TimePoint) -> f64 {
    f64::from_bits(point.time.bits)
}

fn clock_on(year: i32, month: u8, day: u8, hour: u8, minute: u8) -> ClockSnapshot {
    ClockSnapshot::new(
        CivilDate::new(year, month, day).unwrap(),
        CivilTime::new(hour, minute, 0).unwrap(),
        0,
    )
    .unwrap()
}

fn location(latitude: f64, longitude: f64) -> Location {
    Location {
        latitude,
        longitude,
    }
}

fn midday(year: i32, month: u8, day: u8) -> ClockSnapshot {
    clock_on(year, month, day, 12, 0)
}

/// NOAA solar position equations expressed directly in degrees.
fn solar_altitude_azimuth(location: Location, utc_seconds: f64) -> (f64, f64) {
    let julian_day = utc_seconds / 86_400.0 + 2_440_587.5;
    let century = (julian_day - 2_451_545.0) / 36_525.0;

    let mean_longitude =
        (280.46646 + century * (36_000.769_83 + century * 0.0003032)).rem_euclid(360.0);
    let mean_anomaly = 357.52911 + century * (35_999.050_29 - 0.0001537 * century);
    let eccentricity = 0.016708634 - century * (0.000042037 + 0.0000001267 * century);

    let anomaly = mean_anomaly.to_radians();
    let equation_of_center = anomaly.sin() * (1.914602 - century * (0.004817 + 0.000014 * century))
        + (2.0 * anomaly).sin() * (0.019993 - 0.000101 * century)
        + (3.0 * anomaly).sin() * 0.000289;
    let true_longitude = mean_longitude + equation_of_center;

    let omega = (125.04 - 1934.136 * century).to_radians();
    let apparent_longitude = true_longitude - 0.00569 - 0.00478 * omega.sin();

    let mean_obliquity = 23.0
        + (26.0 + (21.448 - century * (46.815 + century * (0.00059 - century * 0.001813))) / 60.0)
            / 60.0;
    let obliquity = mean_obliquity + 0.00256 * omega.cos();
    let declination = (obliquity.to_radians().sin() * apparent_longitude.to_radians().sin())
        .asin()
        .to_degrees();

    let y = (obliquity.to_radians() / 2.0).tan();
    let mean_longitude_rad = mean_longitude.to_radians();
    let equation_of_time = 4.0
        * (y * y * (2.0 * mean_longitude_rad).sin() - 2.0 * eccentricity * anomaly.sin()
            + 4.0 * eccentricity * y * anomaly.sin() * (2.0 * mean_longitude_rad).cos()
            - 0.5 * y * y * (4.0 * mean_longitude_rad).sin()
            - 1.25 * eccentricity * eccentricity * (2.0 * anomaly).sin())
        .to_degrees();

    let minutes = utc_seconds.rem_euclid(86_400.0) / 60.0;
    let true_solar_minutes = minutes + equation_of_time + 4.0 * location.longitude_degrees();
    let hour_angle = signed_hour_angle(true_solar_minutes);

    let latitude = location.latitude_degrees().to_radians();
    let declination_rad = declination.to_radians();
    let hour_angle_rad = hour_angle.to_radians();
    let sin_altitude = latitude.sin() * declination_rad.sin()
        + latitude.cos() * declination_rad.cos() * hour_angle_rad.cos();
    let altitude = sin_altitude.clamp(-1.0, 1.0).asin().to_degrees();
    let azimuth = hour_angle_rad
        .sin()
        .atan2(hour_angle_rad.cos() * latitude.sin() - declination_rad.tan() * latitude.cos())
        .to_degrees()
        + 180.0;
    (altitude, azimuth)
}

fn signed_hour_angle(true_solar_minutes: f64) -> f64 {
    let degrees = (true_solar_minutes / 4.0 - 180.0).rem_euclid(360.0);
    if degrees > 180.0 {
        degrees - 360.0
    } else {
        degrees
    }
}

#[test]
fn azimuth_is_clockwise_from_north_in_equatorial_equinox() {
    let equator = location(0.0, 0.0);
    let samples = trajectory(equator, midday(2026, 3, 20)).unwrap();
    let by_second = |second: u32| {
        samples
            .iter()
            .find(|(sample, _)| *sample == second)
            .map(|(_, position)| *position)
            .unwrap()
    };

    // At local solar noon the equinox sun is near the zenith. Its morning
    // rising and evening setting points are due east and west respectively.
    let noon = (0..MINUTES_PER_DAY)
        .map(|minute| by_second(minute * 60))
        .max_by(|left, right| {
            left.altitude_degrees()
                .partial_cmp(&right.altitude_degrees())
                .unwrap()
        })
        .unwrap();
    assert!(noon.altitude_degrees() > 89.0, "{noon:?}");

    let sunrise_sample = samples
        .iter()
        .min_by(|(_, left), (_, right)| {
            left.altitude_degrees()
                .abs()
                .partial_cmp(&right.altitude_degrees().abs())
                .unwrap()
        })
        .map(|(_, position)| *position)
        .unwrap();
    assert!(sunrise_sample.altitude_degrees().abs() < 1.0);
    let sunrise_azimuth = sunrise_sample.azimuth_degrees();
    assert!(
        (sunrise_azimuth - 90.0).abs() < 2.0 || (sunrise_azimuth - 270.0).abs() < 2.0,
        "unexpected rising/setting azimuth {sunrise_azimuth}"
    );
}

#[test]
fn northern_hemisphere_noon_is_due_south_and_afternoon_is_westerly() {
    let north = location(40.0, -75.0);
    let samples = trajectory(north, midday(2026, 6, 21)).unwrap();
    let noon_second = samples
        .iter()
        .max_by(|(_, left), (_, right)| {
            left.altitude_degrees()
                .partial_cmp(&right.altitude_degrees())
                .unwrap()
        })
        .map(|(second, _)| *second)
        .unwrap();
    let noon = samples
        .iter()
        .find(|(second, _)| *second == noon_second)
        .unwrap()
        .1;
    assert!((noon.azimuth_degrees() - 180.0).abs() < 2.0, "{noon:?}");
    // Solstice noon altitude is close to 90 - |latitude - declination|.
    assert!((noon.altitude_degrees() - 73.0).abs() < 2.0, "{noon:?}");

    // Longitude -75 is UTC-5, so 12:00 and 21:00 UTC are 07:00 and 16:00 local.
    let morning = samples
        .iter()
        .find(|(second, _)| *second == 12 * 3_600)
        .unwrap()
        .1;
    let afternoon = samples
        .iter()
        .find(|(second, _)| *second == 21 * 3_600)
        .unwrap()
        .1;
    assert!(morning.azimuth_degrees() < 180.0, "{morning:?}");
    assert!(afternoon.azimuth_degrees() > 180.0, "{afternoon:?}");
    assert!(
        morning.altitude_degrees() > 0.0 && afternoon.altitude_degrees() > 0.0,
        "{morning:?} {afternoon:?}"
    );
}

#[test]
fn southern_hemisphere_noon_is_due_north() {
    let south = location(-33.87, 151.21);
    let samples = trajectory(south, midday(2026, 12, 21)).unwrap();
    let noon = samples
        .iter()
        .max_by(|(_, left), (_, right)| {
            left.altitude_degrees()
                .partial_cmp(&right.altitude_degrees())
                .unwrap()
        })
        .unwrap()
        .1;
    let azimuth = noon.azimuth_degrees();
    assert!(!(2.0..=358.0).contains(&azimuth), "{noon:?}");
}

#[test]
fn polar_day_and_night_keep_their_computed_trajectory() {
    let north_pole_summer = trajectory(location(89.0, 0.0), midday(2026, 6, 21)).unwrap();
    assert!(north_pole_summer
        .iter()
        .all(|(_, position)| position.altitude_degrees() > 0.0));
    let north_pole_winter = trajectory(location(89.0, 0.0), midday(2026, 12, 21)).unwrap();
    assert!(north_pole_winter
        .iter()
        .all(|(_, position)| position.altitude_degrees() < 0.0));
}

#[test]
fn polar_authored_points_map_to_the_computed_trajectory() {
    let north = location(89.0, 0.0);
    let day = midday(2026, 6, 21);
    let samples = trajectory(north, day).unwrap();
    let schedule = Schedule::new(
        vec![SolarPoint {
            image: ImageReference::from_position(0),
            position: samples[12 * 60].1,
        }],
        None,
    )
    .unwrap();
    let mapped = map_schedule(&schedule, north, day).unwrap();
    let expected = f64::from(12 * 3_600) / f64::from(SECONDS_PER_DAY);
    assert!(
        (value(&mapped.points()[0]) - expected).abs() < 1.0 / f64::from(SECONDS_PER_DAY)
    );
}

#[test]
fn authored_points_map_to_their_actual_trajectory_time() {
    let north = location(40.0, -75.0);
    let day = midday(2026, 6, 21);
    let samples = trajectory(north, day).unwrap();
    let authored = [samples[5 * 60].1, samples[12 * 60].1, samples[19 * 60].1];
    let schedule = Schedule::new(
        authored
            .iter()
            .enumerate()
            .map(|(index, position)| SolarPoint {
                image: ImageReference::from_position(index),
                position: *position,
            })
            .collect(),
        Some(Appearance {
            light: ImageReference::from_position(0),
            dark: ImageReference::from_position(2),
        }),
    )
    .unwrap();

    let mapped = map_schedule(&schedule, north, day).unwrap();
    assert_eq!(mapped.points().len(), authored.len());
    for (index, point) in mapped.points().iter().enumerate() {
        let expected = f64::from([5_u32, 12, 19][index] * 3_600) / f64::from(SECONDS_PER_DAY);
        assert!(
            (value(point) - expected).abs() < 1.0 / f64::from(SECONDS_PER_DAY),
            "{index}: {} vs {expected}",
            value(point)
        );
        assert_eq!(point.image, ImageReference::from_position(index));
    }
    assert_eq!(
        mapped.appearance(),
        Some(Appearance {
            light: ImageReference::from_position(0),
            dark: ImageReference::from_position(2),
        })
    );
}

#[test]
fn duplicate_authored_times_preserve_metadata_order() {
    let north = location(40.0, -75.0);
    let day = midday(2026, 6, 21);
    let samples = trajectory(north, day).unwrap();
    let noon = samples[12 * 60].1;
    let schedule = Schedule::new(
        vec![
            SolarPoint {
                image: ImageReference::from_position(7),
                position: noon,
            },
            SolarPoint {
                image: ImageReference::from_position(9),
                position: noon,
            },
        ],
        None,
    )
    .unwrap();

    let mapped = map_schedule(&schedule, north, day).unwrap();
    assert_eq!(mapped.points()[0].time, mapped.points()[1].time);
    assert_eq!(mapped.points()[0].image, ImageReference::from_position(7));
    assert_eq!(mapped.points()[1].image, ImageReference::from_position(9));
}

#[test]
fn nearest_selection_prefers_the_earlier_of_equal_samples() {
    let target = unit_vector(position(0.0, 0.0));
    let equal = |second: usize| (second, angular_distance(target, target).to_bits());
    let mut best: Option<(usize, u64)> = None;
    for sample in [equal(30), equal(90), equal(150)] {
        best = Some(nearer(best, sample));
    }
    assert_eq!(best.unwrap().0, 30);

    let slightly_off = (
        60,
        angular_distance(unit_vector(position(0.5, 0.0)), target).to_bits(),
    );
    let selected = nearer(Some(equal(30)), slightly_off);
    assert_eq!(selected.0, 30);
}

#[test]
fn clock_date_midnight_is_the_trajectory_base() {
    let north = location(48.85, 2.35);
    let evening = clock_on(2026, 9, 10, 22, 30);
    let samples = trajectory(north, evening).unwrap();
    assert_eq!(samples.len(), MINUTES_PER_DAY as usize);
    assert_eq!(samples[0].0, 0);
    assert_eq!(
        samples[MINUTES_PER_DAY as usize - 1].0,
        (MINUTES_PER_DAY - 1) * 60
    );
}

#[test]
fn distances_of_the_wrong_day_are_refused() {
    assert_eq!(coarse_second(&vec![0; 1_439]), Err(SolarError::InvalidTrajectory));
    assert_eq!(refinement_window(30), (0, 90));
    assert_eq!(refinement_window(86_399), (86_339, 86_399));
    assert_eq!(refined_second(30, &vec![0; 90]), Err(SolarError::InvalidTrajectory));
    let mut distances = vec![7; 91];
    distances[12] = 3;
    distances[40] = 3;
    assert_eq!(refined_second(30, &distances), Ok(12));
    assert!(matches!(
        solar::trajectory(&Vec::new()),
        Err(SolarError::InvalidTrajectory)
    ));
}

#[test]
fn every_point_needs_a_second_of_the_day() {
    let schedule = Schedule::new(
        vec![SolarPoint {
            image: ImageReference::from_position(0),
            position: position(10.0, 20.0),
        }],
        None,
    )
    .unwrap();
    let mapped = solar::map_schedule(&schedule, &vec![43_200]).unwrap();
    assert_eq!(value(&mapped.points()[0]), 0.5);
    for seconds in [vec![], vec![1, 2], vec![86_400]] {
        assert_eq!(
            solar::map_schedule(&schedule, &seconds).err(),
            Some(SolarError::InvalidTrajectory)
        );
    }
    assert_eq!(
        SolarError::EmptySchedule.message(),
        "invalid solar schedule: EmptySchedule"
    );
}

#[test]
fn the_moment_of_a_second_counts_from_local_midnight() {
    let clock = ClockSnapshot::new(
        CivilDate::new(1970, 1, 2).unwrap(),
        CivilTime::new(1, 0, 0).unwrap(),
        3_600,
    )
    .unwrap();
    assert_eq!(utc_moment_at(clock, 0), 82_800_000_000_000);
    assert_eq!(utc_moment_at(clock, 60), 82_860_000_000_000);
}

#[test]
fn the_trajectory_is_that_of_the_date() {
    let morning = clock_on(2026, 9, 10, 6, 15);
    let evening = clock_on(2026, 9, 10, 22, 30);
    let moments = sampled_moments(morning);
    assert_eq!(moments, sampled_moments(evening));
    assert_eq!(moments.len(), 1_440);
    assert_eq!(moments[1] - moments[0], 60_000_000_000);
    assert_eq!(moments[0], utc_moment_at(evening, 0));
    let north = location(48.85, 2.35);
    assert_eq!(
        trajectory(north, morning).unwrap(),
        trajectory(north, evening).unwrap()
    );
}
