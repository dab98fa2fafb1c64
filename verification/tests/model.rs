//! Clock readings and what a wallpaper's metadata may hold.

use genkan::dynamic_wallpaper::clock::{
    seconds_of_day, time_of_day, CivilDate, CivilTime, ClockError, ClockSnapshot,
};
use genkan::dynamic_wallpaper::fraction::{
    day_fraction_bits, effective_boundary_second, whole_number_bits,
};
use genkan::dynamic_wallpaper::model::{
    Appearance, AppearancePreference, AppleProperty, HeifItemId, ImageReference, Metadata,
    ModelError, NormalizedTime, Number, PropertyValue, Schedule, Selection, SolarPoint,
    SolarPosition, TimePoint, TopLevelImages,
};

fn image(position: usize) -> ImageReference {
    ImageReference::from_position(position)
}

fn time_point(position: usize, time: f64) -> TimePoint {
    TimePoint {
        image: image(position),
        time: NormalizedTime::new(Number::Real(time.to_bits())).unwrap(),
    }
}

fn solar_point(position: usize) -> SolarPoint {
    SolarPoint {
        image: image(position),
        position: SolarPosition::new(Number::Integer(10), Number::Integer(180)).unwrap(),
    }
}

#[test]
fn dates_follow_the_gregorian_calendar() {
    assert!(CivilDate::new(2024, 2, 29).is_ok());
    assert!(CivilDate::new(2000, 2, 29).is_ok());
    assert_eq!(CivilDate::new(2026, 2, 29), Err(ClockError::InvalidDate));
    assert_eq!(CivilDate::new(1900, 2, 29), Err(ClockError::InvalidDate));
    assert_eq!(CivilDate::new(2026, 4, 31), Err(ClockError::InvalidDate));
    assert_eq!(CivilDate::new(2026, 13, 1), Err(ClockError::InvalidDate));
    assert_eq!(CivilDate::new(2026, 0, 1), Err(ClockError::InvalidDate));
    assert_eq!(CivilDate::new(2026, 1, 0), Err(ClockError::InvalidDate));
    assert!(CivilDate::new(-4, 2, 29).is_ok());
}

#[test]
fn times_and_offsets_are_bounded() {
    assert!(CivilTime::new(23, 59, 59).is_ok());
    assert_eq!(CivilTime::new(24, 0, 0), Err(ClockError::InvalidTime));
    assert_eq!(CivilTime::new(0, 60, 0), Err(ClockError::InvalidTime));
    assert_eq!(CivilTime::new(0, 0, 60), Err(ClockError::InvalidTime));
    let date = CivilDate::new(2026, 7, 1).unwrap();
    let time = CivilTime::new(12, 30, 15).unwrap();
    assert_eq!(
        ClockSnapshot::new(date, time, 86_400),
        Err(ClockError::InvalidOffset)
    );
    assert_eq!(
        ClockSnapshot::new(date, time, -86_400),
        Err(ClockError::InvalidOffset)
    );
    assert_eq!(
        ClockSnapshot::new_with_nanosecond(date, time, 1_000_000_000, 0),
        Err(ClockError::InvalidTime)
    );
    let clock = ClockSnapshot::new_with_nanosecond(date, time, 7, 0).unwrap();
    assert_eq!(seconds_of_day(clock), 45_015);
    assert_eq!(time_of_day(clock), 45_015_000_000_007);
}

#[test]
fn moments_are_counted_from_1970() {
    let midnight = CivilTime::new(0, 0, 0).unwrap();
    let first = ClockSnapshot::new(CivilDate::new(1970, 1, 1).unwrap(), midnight, 0).unwrap();
    assert_eq!(first.utc_nanoseconds(), 0);
    let later = ClockSnapshot::new(CivilDate::new(2000, 3, 1).unwrap(), midnight, 0).unwrap();
    assert_eq!(later.utc_nanoseconds(), 951_868_800_000_000_000);
    let east = ClockSnapshot::new(CivilDate::new(1970, 1, 1).unwrap(), midnight, 3_600).unwrap();
    assert_eq!(east.utc_nanoseconds(), -3_600_000_000_000);
    let before = ClockSnapshot::new(CivilDate::new(1969, 12, 31).unwrap(), midnight, 0).unwrap();
    assert_eq!(before.utc_nanoseconds(), -86_400_000_000_000);
}

#[test]
fn times_lie_in_the_unit_interval() {
    let half = NormalizedTime::new(Number::Real(0.5f64.to_bits())).unwrap();
    assert_eq!(half.bits, 0.5f64.to_bits());
    assert_eq!(
        NormalizedTime::new(Number::Integer(0)).unwrap().bits,
        0.0f64.to_bits()
    );
    for number in [
        Number::Integer(1),
        Number::Integer(-1),
        Number::Real(1.0f64.to_bits()),
        Number::Real((-0.25f64).to_bits()),
        Number::Real(f64::NAN.to_bits()),
        Number::Real(f64::INFINITY.to_bits()),
    ] {
        assert_eq!(NormalizedTime::new(number), Err(ModelError::InvalidTime));
    }
}

#[test]
fn positions_lie_on_the_sky() {
    let position = SolarPosition::new(
        Number::Integer(-90),
        Number::Real(359.5f64.to_bits()),
    )
    .unwrap();
    assert_eq!(position.altitude_bits, (-90.0f64).to_bits());
    assert_eq!(position.azimuth_bits, 359.5f64.to_bits());
    for (altitude, azimuth) in [
        (Number::Integer(91), Number::Integer(0)),
        (Number::Real((-90.5f64).to_bits()), Number::Integer(0)),
        (Number::Real(f64::NAN.to_bits()), Number::Integer(0)),
        (Number::Integer(0), Number::Integer(360)),
        (Number::Integer(0), Number::Integer(-1)),
        (Number::Integer(0), Number::Real(f64::INFINITY.to_bits())),
    ] {
        assert_eq!(
            SolarPosition::new(altitude, azimuth),
            Err(ModelError::InvalidPosition)
        );
    }
}

#[test]
fn schedules_are_never_empty() {
    let empty = Schedule::<TimePoint>::new(Vec::new(), None);
    assert!(matches!(empty, Err(ModelError::EmptySchedule)));
    let schedule = Schedule::new(vec![time_point(1, 0.25)], None).unwrap();
    assert_eq!(schedule.points().len(), 1);
    assert_eq!(schedule.appearance(), None);
}

#[test]
fn repeated_properties_conflict_without_touching_others() {
    let appearance = Appearance {
        light: image(0),
        dark: image(1),
    };
    let mut metadata = Metadata::default();
    let schedule = Schedule::new(vec![time_point(2, 0.5)], None).unwrap();
    assert_eq!(
        metadata.insert(AppleProperty::Time, PropertyValue::Time(schedule)),
        Ok(())
    );
    let declare = PropertyValue::Appearance(appearance);
    assert_eq!(metadata.insert(AppleProperty::Appearance, declare), Ok(()));
    assert_eq!(metadata.appearance(), Some(appearance));
    let again = PropertyValue::Appearance(appearance);
    assert_eq!(
        metadata.insert(AppleProperty::Appearance, again),
        Err(ModelError::DuplicateProperty(AppleProperty::Appearance))
    );
    assert_eq!(metadata.appearance(), None);
    let third = PropertyValue::Appearance(appearance);
    assert_eq!(
        metadata.insert(AppleProperty::Appearance, third),
        Err(ModelError::DuplicateProperty(AppleProperty::Appearance))
    );
    assert!(metadata.time().is_some());
    let misplaced = PropertyValue::Appearance(appearance);
    assert_eq!(
        metadata.insert(AppleProperty::Solar, misplaced),
        Err(ModelError::MismatchedProperty(AppleProperty::Solar))
    );
    assert!(metadata.solar().is_none());
}

#[test]
fn selection_falls_back_from_time_to_appearance_to_primary() {
    let own = Appearance {
        light: image(3),
        dark: image(4),
    };
    let embedded = Appearance {
        light: image(5),
        dark: image(6),
    };
    let mut metadata = Metadata::default();
    assert!(matches!(
        metadata.select(AppearancePreference::Dark),
        Selection::Primary
    ));
    let solar = Schedule::new(vec![solar_point(0)], Some(embedded)).unwrap();
    metadata
        .insert(AppleProperty::Solar, PropertyValue::Solar(solar))
        .unwrap();
    assert!(matches!(
        metadata.select(AppearancePreference::Dark),
        Selection::Static(chosen) if chosen == image(6)
    ));
    metadata
        .insert(AppleProperty::Appearance, PropertyValue::Appearance(own))
        .unwrap();
    assert!(matches!(
        metadata.select(AppearancePreference::Automatic),
        Selection::Static(chosen) if chosen == image(3)
    ));
    let time = Schedule::new(vec![time_point(7, 0.5)], None).unwrap();
    metadata
        .insert(AppleProperty::Time, PropertyValue::Time(time))
        .unwrap();
    assert!(matches!(
        metadata.select(AppearancePreference::Light),
        Selection::Time(schedule) if schedule.points().len() == 1
    ));
}

#[test]
fn images_are_resolved_by_position() {
    let images = TopLevelImages::new(vec![HeifItemId::new(40), HeifItemId::new(10)]);
    assert_eq!(images.len(), 2);
    assert_eq!(images.resolve(image(1)).map(HeifItemId::value), Some(10));
    assert!(images.resolve(image(2)).is_none());
}

#[test]
fn whole_seconds_take_effect_exactly() {
    for second in [0u32, 1, 59, 3_600, 43_199, 43_200, 86_399] {
        let bits = day_fraction_bits(second);
        assert_eq!(bits, (f64::from(second) / 86_400.0).to_bits());
        assert_eq!(effective_boundary_second(bits), second);
    }
    assert_eq!(whole_number_bits(360), 360.0f64.to_bits());
    assert_eq!(effective_boundary_second(0.5f64.to_bits()), 43_200);
    for early in [-0.0f64, -0.5, f64::NEG_INFINITY] {
        assert_eq!(effective_boundary_second(early.to_bits()), 0);
    }
    for late in [1.5f64, f64::INFINITY, f64::NAN, -f64::NAN] {
        assert_eq!(effective_boundary_second(late.to_bits()), 86_400);
    }
}
