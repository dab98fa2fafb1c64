use genkan::dynamic_wallpaper::clock::{CivilDate, CivilTime, ClockSnapshot};
use genkan::dynamic_wallpaper::fraction::effective_boundary_second;
use genkan::dynamic_wallpaper::heic::RgbaFrame;
use genkan::dynamic_wallpaper::model::{
    Appearance, AppearancePreference, AppleProperty, ImageReference, Metadata, NormalizedTime,
    Number, PropertyValue, Schedule, Selection, SolarPoint, SolarPosition, TimePoint,
};
use genkan::dynamic_wallpaper::playback::{
    blend_into, boundary_start, clock_discontinuity, same_dimensions, selected_point,
    valid_frame_sized, valid_frame_with_limit, DecodeOutcome, Generations, Playback,
    SynchronizeOutcome, LAST_MOMENT, MAX_FRAME_BYTES,
};

fn seconds(value: u64) -> u128 {
    u128::from(value) * 1_000_000_000
}

fn millis(value: u64) -> u128 {
    u128::from(value) * 1_000_000
}

fn image(position: usize) -> ImageReference {
    ImageReference::from_position(position)
}

fn point(position: usize, time: f64) -> TimePoint {
    TimePoint {
        image: image(position),
        time: NormalizedTime::new(Number::Real(time.to_bits())).unwrap(),
    }
}

fn metadata(points: Vec<TimePoint>) -> Metadata {
    let mut metadata = Metadata::default();
    metadata
        .insert(
            AppleProperty::Time,
            PropertyValue::Time(Schedule::new(points, None).unwrap()),
        )
        .unwrap();
    metadata
}

fn clock(hour: u8, minute: u8, second: u8, offset: i32) -> ClockSnapshot {
    clock_on(1, hour, minute, second, offset)
}

fn clock_on(day: u8, hour: u8, minute: u8, second: u8, offset: i32) -> ClockSnapshot {
    ClockSnapshot::new(
        CivilDate::new(2026, 11, day).unwrap(),
        CivilTime::new(hour, minute, second).unwrap(),
        offset,
    )
    .unwrap()
}

fn precise_clock(hour: u8, minute: u8, second: u8, nanosecond: u32) -> ClockSnapshot {
    ClockSnapshot::new_with_nanosecond(
        CivilDate::new(2026, 11, 1).unwrap(),
        CivilTime::new(hour, minute, second).unwrap(),
        nanosecond,
        0,
    )
    .unwrap()
}

fn frame(value: u8, width: u32, height: u32) -> RgbaFrame {
    let mut pixels = Vec::with_capacity(width as usize * height as usize * 4);
    for _ in 0..width as usize * height as usize {
        pixels.extend_from_slice(&[value, value, value, 255]);
    }
    RgbaFrame {
        width,
        height,
        pixels,
    }
}

fn complete_initial(playback: &mut Playback, value: u8, generations: &mut Generations) {
    let request = playback.take_decode_request().unwrap();
    assert_eq!(
        playback.complete_decode(request, Ok(frame(value, 2, 1)), 0, generations),
        DecodeOutcome::Presented
    );
}

#[test]
fn selection_sorts_wraps_and_uses_the_last_duplicate_at_a_boundary() {
    let mut generations = Generations::new();
    let metadata = metadata(vec![point(1, 0.5), point(2, 0.25), point(3, 0.25)]);
    let before = Playback::new(
        &metadata,
        image(0),
        AppearancePreference::Automatic,
        clock(1, 0, 0, 0),
        0,
        false, &mut generations);
    assert_eq!(before.selected(), image(1));

    let boundary = Playback::new(
        &metadata,
        image(0),
        AppearancePreference::Automatic,
        clock(6, 0, 0, 0),
        0,
        false, &mut generations);
    assert_eq!(boundary.selected(), image(3));

    let after = Playback::new(
        &metadata,
        image(0),
        AppearancePreference::Automatic,
        clock(12, 0, 1, 0),
        0,
        false, &mut generations);
    assert_eq!(after.selected(), image(1));
}

#[test]
fn scheduler_wakes_at_boundaries_or_sixty_second_resynchronization() {
    let mut generations = Generations::new();
    let metadata = metadata(vec![point(0, 0.0), point(1, 60.0 / 86_400.0)]);
    let scheduled = Playback::new(
        &metadata,
        image(0),
        AppearancePreference::Automatic,
        clock(0, 0, 30, 0),
        0,
        false, &mut generations);
    assert_eq!(
        scheduled.next_wake(clock(0, 0, 30, 0), 0),
        Some(seconds(30))
    );
    assert_eq!(
        scheduled.next_wake(clock(0, 1, 0, 0), seconds(30)),
        Some(seconds(60))
    );

    let mut static_metadata = Metadata::default();
    static_metadata
        .insert(
            AppleProperty::Appearance,
            PropertyValue::Appearance(Appearance {
                light: image(4),
                dark: image(5),
            }),
        )
        .unwrap();
    let mut static_playback = Playback::new(
        &static_metadata,
        image(0),
        AppearancePreference::Dark,
        clock(0, 0, 0, 0),
        0,
        false, &mut generations);
    assert_eq!(static_playback.selected(), image(5));
    assert_eq!(
        static_playback.next_wake(clock(0, 0, 0, 0), 0),
        None
    );
    let unchanged =
        static_playback.synchronize(clock(12, 0, 0, 0), seconds(43_200), &mut generations);
    assert!(!unchanged.selection_changed);
    assert!(!unchanged.presentation_changed);
    let appearance_request = static_playback.take_decode_request().unwrap();
    assert_eq!(appearance_request.image, image(5));
    assert_eq!(
        static_playback.complete_decode(
            appearance_request,
            Err(()),
            seconds(43_200), &mut generations),
        DecodeOutcome::Failed
    );
    assert_eq!(
        static_playback.take_decode_request().unwrap().image,
        image(0)
    );
}

#[test]
fn clock_offset_jump_reselects_without_replaying_or_dissolving() {
    let mut generations = Generations::new();
    let metadata = metadata(vec![point(0, 0.0), point(1, 0.05), point(2, 0.1)]);
    let mut playback = Playback::new(
        &metadata,
        image(0),
        AppearancePreference::Automatic,
        clock(1, 50, 0, -4 * 3_600),
        0,
        false, &mut generations);
    complete_initial(&mut playback, 10, &mut generations);

    let outcome =
        playback.synchronize(clock(1, 10, 0, -5 * 3_600), seconds(20 * 60), &mut generations);
    assert_eq!(
        outcome,
        SynchronizeOutcome {
            selection_changed: true,
            discontinuity: true,
            presentation_changed: false,
        }
    );
    assert_eq!(playback.selected(), image(0));
    let request = playback.take_decode_request().unwrap();
    assert_eq!(
        playback.complete_decode(request, Ok(frame(20, 2, 1)), seconds(1_200), &mut generations),
        DecodeOutcome::Presented
    );
    assert!(!playback.is_transitioning());
}

#[test]
fn spring_clock_suspend_and_midnight_reselect_current_civil_time() {
    let mut generations = Generations::new();
    let metadata = metadata(vec![point(0, 0.0), point(1, 0.1), point(2, 0.5)]);
    for (before, after, monotonic, expected, discontinuity) in [
        (
            clock(1, 59, 59, -5 * 3_600),
            clock(3, 0, 0, -4 * 3_600),
            seconds(1),
            image(1),
            true,
        ),
        (
            clock(1, 0, 0, 0),
            clock(13, 0, 0, 0),
            seconds(1),
            image(2),
            true,
        ),
        (
            clock(1, 0, 0, 0),
            clock(13, 0, 0, 0),
            0,
            image(2),
            true,
        ),
        (
            clock_on(1, 23, 59, 59, 0),
            clock_on(2, 0, 0, 0, 0),
            seconds(1),
            image(0),
            false,
        ),
    ] {
        let mut playback = Playback::new(
            &metadata,
            image(9),
            AppearancePreference::Automatic,
            before,
            0,
            false, &mut generations);
        let outcome = playback.synchronize(after, monotonic, &mut generations);
        assert_eq!(playback.selected(), expected);
        assert_eq!(outcome.discontinuity, discontinuity);
    }
}

#[test]
fn regular_boundary_dissolves_for_two_seconds_from_the_boundary() {
    let mut generations = Generations::new();
    let metadata = metadata(vec![point(0, 0.0), point(1, 60.0 / 86_400.0)]);
    let mut playback = Playback::new(
        &metadata,
        image(0),
        AppearancePreference::Automatic,
        clock(0, 0, 0, 0),
        0,
        false, &mut generations);
    complete_initial(&mut playback, 0, &mut generations);
    let outcome = playback.synchronize(clock(0, 1, 0, 0), seconds(60), &mut generations);
    assert!(outcome.selection_changed);
    assert!(!outcome.discontinuity);
    let request = playback.take_decode_request().unwrap();
    assert_eq!(
        playback.complete_decode(request, Ok(frame(200, 2, 1)), millis(60_500), &mut generations),
        DecodeOutcome::Transitioning
    );
    assert_eq!(playback.frame().unwrap().pixels[0], 50);
    assert!(playback.advance_transition(seconds(61)));
    assert_eq!(playback.frame().unwrap().pixels[0], 100);
    assert!(playback.advance_transition(seconds(62)));
    assert_eq!(playback.frame().unwrap().pixels[0], 200);
    assert!(!playback.is_transitioning());
}

#[test]
fn explicit_resume_snaps_active_or_pending_transition_to_current_selection() {
    let mut generations = Generations::new();
    let metadata = metadata(vec![point(0, 0.0), point(1, 60.0 / 86_400.0)]);
    let mut active = Playback::new(
        &metadata,
        image(0),
        AppearancePreference::Automatic,
        clock(0, 0, 0, 0),
        0,
        false, &mut generations);
    complete_initial(&mut active, 0, &mut generations);
    active.synchronize(clock(0, 1, 0, 0), seconds(60), &mut generations);
    let request = active.take_decode_request().unwrap();
    active.complete_decode(request, Ok(frame(200, 2, 1)), millis(60_500), &mut generations);
    let outcome =
        active.resynchronize_after_discontinuity(clock(0, 1, 1, 0), seconds(61), &mut generations);
    assert!(outcome.discontinuity);
    assert!(outcome.presentation_changed);
    assert!(!active.is_transitioning());
    assert_eq!(active.frame().unwrap().pixels[0], 200);

    let mut pending = Playback::new(
        &metadata,
        image(0),
        AppearancePreference::Automatic,
        clock(0, 0, 0, 0),
        0,
        false, &mut generations);
    complete_initial(&mut pending, 0, &mut generations);
    pending.synchronize(clock(0, 1, 0, 0), seconds(60), &mut generations);
    let stale = pending.take_decode_request().unwrap();
    pending.resynchronize_after_discontinuity(clock(0, 1, 1, 0), seconds(61), &mut generations);
    assert_eq!(
        pending.complete_decode(stale, Ok(frame(99, 2, 1)), seconds(61), &mut generations),
        DecodeOutcome::Ignored
    );
    let current = pending.take_decode_request().unwrap();
    assert_ne!(current.generation, stale.generation);
    assert_eq!(
        pending.complete_decode(current, Ok(frame(200, 2, 1)), seconds(61), &mut generations),
        DecodeOutcome::Presented
    );
}

#[test]
fn late_unequal_and_reduced_motion_decodes_switch_immediately() {
    let mut generations = Generations::new();
    let metadata = metadata(vec![point(0, 0.0), point(1, 60.0 / 86_400.0)]);
    for (reduced_motion, completion, dimensions) in [
        (false, seconds(63), (2, 1)),
        (false, seconds(61), (1, 1)),
        (true, seconds(61), (2, 1)),
    ] {
        let mut playback = Playback::new(
            &metadata,
            image(0),
            AppearancePreference::Automatic,
            clock(0, 0, 0, 0),
            0,
            reduced_motion, &mut generations);
        complete_initial(&mut playback, 0, &mut generations);
        playback.synchronize(clock(0, 1, 0, 0), seconds(60), &mut generations);
        let request = playback.take_decode_request().unwrap();
        assert_eq!(
            playback.complete_decode(
                request,
                Ok(frame(200, dimensions.0, dimensions.1)),
                completion, &mut generations),
            DecodeOutcome::Presented
        );
        assert!(!playback.is_transitioning());
    }
}

#[test]
fn stale_and_failed_decode_work_cannot_replace_the_retained_frame() {
    let mut generations = Generations::new();
    let metadata = metadata(vec![point(0, 0.0), point(1, 60.0 / 86_400.0)]);
    let mut playback = Playback::new(
        &metadata,
        image(0),
        AppearancePreference::Automatic,
        clock(0, 0, 0, 0),
        0,
        false, &mut generations);
    let stale = playback.take_decode_request().unwrap();
    playback.synchronize(clock(0, 1, 0, 0), seconds(60), &mut generations);
    assert_eq!(
        playback.complete_decode(stale, Ok(frame(99, 2, 1)), seconds(60), &mut generations),
        DecodeOutcome::Ignored
    );
    let current = playback.take_decode_request().unwrap();
    assert_eq!(
        playback.complete_decode(current, Err(()), seconds(60), &mut generations),
        DecodeOutcome::Failed
    );
    assert!(playback.frame().is_none());
    let fallback = playback.take_decode_request().unwrap();
    assert_eq!(fallback.image, image(0));
    assert_eq!(
        playback.complete_decode(fallback, Ok(frame(10, 2, 1)), seconds(60), &mut generations),
        DecodeOutcome::Presented
    );
    assert_eq!(playback.frame().unwrap().pixels[0], 10);
}

#[test]
fn failed_boundary_decode_retries_on_bounded_resynchronization() {
    let mut generations = Generations::new();
    let metadata = metadata(vec![point(0, 0.0), point(1, 60.0 / 86_400.0)]);
    let mut playback = Playback::new(
        &metadata,
        image(0),
        AppearancePreference::Automatic,
        clock(0, 0, 0, 0),
        0,
        false, &mut generations);
    complete_initial(&mut playback, 10, &mut generations);
    playback.synchronize(clock(0, 1, 0, 0), seconds(60), &mut generations);
    let failed = playback.take_decode_request().unwrap();
    assert_eq!(
        playback.complete_decode(failed, Err(()), seconds(60), &mut generations),
        DecodeOutcome::Failed
    );
    assert_eq!(playback.frame().unwrap().pixels[0], 10);
    assert_eq!(playback.take_decode_request(), None);

    let outcome = playback.synchronize(clock(0, 2, 0, 0), seconds(120), &mut generations);
    assert!(!outcome.selection_changed);
    assert!(!outcome.presentation_changed);
    let retry = playback.take_decode_request().unwrap();
    assert_eq!(retry.image, image(1));
}

#[test]
fn decode_requests_are_dispatched_once_and_unique_across_playback_instances() {
    let mut generations = Generations::new();
    let metadata = metadata(vec![point(0, 0.0)]);
    let mut first = Playback::new(
        &metadata,
        image(0),
        AppearancePreference::Automatic,
        clock(0, 0, 0, 0),
        0,
        false, &mut generations);
    let first_request = first.take_decode_request().unwrap();
    assert_eq!(first.take_decode_request(), None);

    let mut replacement = Playback::new(
        &metadata,
        image(0),
        AppearancePreference::Automatic,
        clock(0, 0, 0, 0),
        0,
        false, &mut generations);
    let replacement_request = replacement.take_decode_request().unwrap();
    assert_ne!(first_request.generation, replacement_request.generation);
    assert_eq!(
        replacement.complete_decode(first_request, Ok(frame(99, 2, 1)), 0, &mut generations),
        DecodeOutcome::Ignored
    );
}

#[test]
fn malformed_completion_is_rejected_before_becoming_a_frame_role() {
    let mut generations = Generations::new();
    let metadata = metadata(vec![point(0, 0.0)]);
    let mut playback = Playback::new(
        &metadata,
        image(0),
        AppearancePreference::Automatic,
        clock(0, 0, 0, 0),
        0,
        false, &mut generations);
    let request = playback.take_decode_request().unwrap();
    assert_eq!(
        playback.complete_decode(
            request,
            Ok(RgbaFrame {
                width: 2,
                height: 2,
                pixels: vec![0; 15],
            }),
            0, &mut generations),
        DecodeOutcome::Rejected
    );
    assert!(playback.frame().is_none());

    let mut playback = Playback::new(
        &metadata,
        image(0),
        AppearancePreference::Automatic,
        clock(0, 0, 0, 0),
        0,
        false, &mut generations);
    let request = playback.take_decode_request().unwrap();
    assert_eq!(
        playback.complete_decode(
            request,
            Ok(RgbaFrame {
                width: 1,
                height: 1,
                pixels: vec![1, 2, 3, 0],
            }),
            0, &mut generations),
        DecodeOutcome::Rejected
    );
}

#[test]
fn floating_boundaries_and_midnight_use_the_selection_predicate() {
    let mut generations = Generations::new();
    let thirteen_seconds: f64 = 13.0 / 86_400.0;
    assert_eq!(effective_boundary_second(thirteen_seconds.to_bits()), 13);
    assert_eq!(
        effective_boundary_second((1.0 / 86_400.0_f64).to_bits() + 1),
        2
    );

    let metadata = metadata(vec![point(0, 0.25), point(1, 0.999_999)]);
    let mut playback = Playback::new(
        &metadata,
        image(9),
        AppearancePreference::Automatic,
        clock_on(1, 23, 59, 59, 0),
        0,
        false, &mut generations);
    assert_eq!(playback.selected(), image(0));
    assert_eq!(
        playback.next_wake(clock_on(1, 23, 59, 59, 0), 0),
        Some(seconds(1))
    );
    playback.synchronize(clock_on(2, 0, 0, 0, 0), seconds(1), &mut generations);
    assert_eq!(playback.selected(), image(1));
}

#[test]
fn real_boundary_deadline_rejects_late_and_pre_epoch_dissolves() {
    let mut generations = Generations::new();
    let metadata = metadata(vec![point(0, 0.0), point(1, 60.0 / 86_400.0)]);
    let mut late = Playback::new(
        &metadata,
        image(0),
        AppearancePreference::Automatic,
        precise_clock(0, 0, 59, 900_000_000),
        millis(59_900),
        false, &mut generations);
    complete_initial(&mut late, 0, &mut generations);
    late.synchronize(
        precise_clock(0, 1, 0, 900_000_000),
        millis(60_900), &mut generations);
    let request = late.take_decode_request().unwrap();
    assert_eq!(
        late.complete_decode(request, Ok(frame(200, 2, 1)), millis(62_400), &mut generations),
        DecodeOutcome::Presented
    );

    let mut young_epoch = Playback::new(
        &metadata,
        image(9),
        AppearancePreference::Automatic,
        clock(12, 0, 0, 0),
        0,
        false, &mut generations);
    let selected = young_epoch.take_decode_request().unwrap();
    assert_eq!(
        young_epoch.complete_decode(selected, Err(()), 0, &mut generations),
        DecodeOutcome::Failed
    );
    let fallback = young_epoch.take_decode_request().unwrap();
    young_epoch.complete_decode(fallback, Ok(frame(0, 2, 1)), 0, &mut generations);
    young_epoch.synchronize(clock(12, 1, 0, 0), seconds(60), &mut generations);
    let retry = young_epoch.take_decode_request().unwrap();
    assert_eq!(
        young_epoch.complete_decode(retry, Ok(frame(200, 2, 1)), seconds(60), &mut generations),
        DecodeOutcome::Presented
    );
}

#[test]
fn retry_deadline_and_blended_identity_prevent_loops_and_stale_labels() {
    let mut generations = Generations::new();
    let metadata = metadata(vec![point(0, 0.0), point(1, 60.0 / 86_400.0)]);
    let mut playback = Playback::new(
        &metadata,
        image(0),
        AppearancePreference::Automatic,
        clock(0, 0, 0, 0),
        0,
        false, &mut generations);
    complete_initial(&mut playback, 0, &mut generations);
    playback.synchronize(clock(0, 1, 0, 0), seconds(60), &mut generations);
    let request = playback.take_decode_request().unwrap();
    playback.complete_decode(request, Ok(frame(200, 2, 1)), millis(60_500), &mut generations);
    playback.synchronize(clock(0, 0, 30, 0), seconds(90), &mut generations);
    let request = playback.take_decode_request().unwrap();
    assert_eq!(
        playback.complete_decode(request, Err(()), seconds(90), &mut generations),
        DecodeOutcome::Failed
    );
    playback.synchronize(clock(0, 0, 31, 0), seconds(91), &mut generations);
    assert_eq!(playback.take_decode_request(), None);
    playback.resynchronize_after_discontinuity(clock(0, 0, 31, 0), seconds(91), &mut generations);
    assert_eq!(playback.take_decode_request(), None);
    assert_eq!(
        playback.next_wake(clock(0, 0, 31, 0), seconds(91)),
        Some(seconds(29))
    );
    playback.synchronize(clock(0, 0, 32, 0), seconds(150), &mut generations);
    assert_eq!(playback.take_decode_request().unwrap().image, image(0));
    assert_ne!(
        playback.next_wake(clock(0, 0, 32, 0), seconds(150)),
        Some(0)
    );
}

#[test]
fn transition_reuses_blend_storage_and_reports_actual_pixel_changes() {
    let mut generations = Generations::new();
    let metadata = metadata(vec![point(0, 0.0), point(1, 60.0 / 86_400.0)]);
    let mut playback = Playback::new(
        &metadata,
        image(0),
        AppearancePreference::Automatic,
        clock(0, 0, 0, 0),
        0,
        false, &mut generations);
    complete_initial(&mut playback, 0, &mut generations);
    playback.synchronize(clock(0, 1, 0, 0), seconds(60), &mut generations);
    let request = playback.take_decode_request().unwrap();
    playback.complete_decode(request, Ok(frame(200, 2, 1)), millis(60_500), &mut generations);
    let allocation = playback.frame().unwrap().pixels.as_ptr();
    assert!(!playback.advance_transition(millis(60_500)));
    assert!(playback.advance_transition(seconds(61)));
    assert_eq!(playback.frame().unwrap().pixels.as_ptr(), allocation);

    let mut no_allocation = Playback::new(
        &metadata,
        image(0),
        AppearancePreference::Automatic,
        clock(0, 0, 0, 0),
        0,
        false, &mut generations);
    complete_initial(&mut no_allocation, 0, &mut generations);
    no_allocation.synchronize(clock(0, 1, 0, 0), seconds(60), &mut generations);
    let request = no_allocation.take_decode_request().unwrap();
    assert_eq!(
        no_allocation.complete_decode_with_limit(
            request,
            Ok(frame(200, 2, 1)),
            seconds(60),
            0, &mut generations),
        DecodeOutcome::Presented
    );
    assert!(!no_allocation.is_transitioning());
}

#[test]
fn frame_limit_includes_retained_vector_capacity() {
    let mut pixels = Vec::with_capacity(8);
    pixels.extend_from_slice(&[1, 2, 3, 255]);
    assert!(!valid_frame_with_limit(
        &RgbaFrame {
            width: 1,
            height: 1,
            pixels,
        },
        4,
    ));
}

#[test]
fn ordinary_and_static_failures_wake_once_when_retry_becomes_due() {
    let mut generations = Generations::new();
    let timed_metadata = metadata(vec![point(0, 0.0), point(1, 0.5)]);
    let mut timed = Playback::new(
        &timed_metadata,
        image(0),
        AppearancePreference::Automatic,
        clock(11, 59, 0, 0),
        0,
        false, &mut generations);
    complete_initial(&mut timed, 0, &mut generations);
    timed.synchronize(clock(12, 0, 0, 0), seconds(60), &mut generations);
    let failed = timed.take_decode_request().unwrap();
    timed.complete_decode(failed, Err(()), seconds(60), &mut generations);
    timed.synchronize(clock(12, 0, 59, 0), seconds(119), &mut generations);
    assert_eq!(timed.take_decode_request(), None);
    timed.synchronize(clock(12, 1, 0, 0), seconds(120), &mut generations);
    assert_eq!(timed.take_decode_request().unwrap().image, image(1));
    assert_ne!(
        timed.next_wake(clock(12, 1, 0, 0), seconds(120)),
        Some(0)
    );

    let mut static_metadata = Metadata::default();
    static_metadata
        .insert(
            AppleProperty::Appearance,
            PropertyValue::Appearance(Appearance {
                light: image(1),
                dark: image(2),
            }),
        )
        .unwrap();
    let mut static_playback = Playback::new(
        &static_metadata,
        image(0),
        AppearancePreference::Dark,
        clock(1, 0, 0, 0),
        0,
        false, &mut generations);
    let appearance = static_playback.take_decode_request().unwrap();
    static_playback.complete_decode(appearance, Err(()), 0, &mut generations);
    let primary = static_playback.take_decode_request().unwrap();
    static_playback.complete_decode(primary, Ok(frame(0, 2, 1)), 0, &mut generations);
    assert_eq!(
        static_playback.next_wake(clock(1, 0, 0, 0), 0),
        Some(seconds(60))
    );
    static_playback.synchronize(clock(1, 1, 0, 0), seconds(60), &mut generations);
    assert_eq!(
        static_playback.take_decode_request().unwrap().image,
        image(2)
    );
    assert_eq!(
        static_playback.next_wake(clock(1, 1, 0, 0), seconds(60)),
        None
    );
}

#[test]
fn completing_identical_transition_updates_identity_without_dirty_pixels() {
    let mut generations = Generations::new();
    let metadata = metadata(vec![point(0, 0.0), point(1, 60.0 / 86_400.0)]);
    let mut playback = Playback::new(
        &metadata,
        image(0),
        AppearancePreference::Automatic,
        clock(0, 0, 0, 0),
        0,
        false, &mut generations);
    complete_initial(&mut playback, 1, &mut generations);
    playback.synchronize(clock(0, 1, 0, 0), seconds(60), &mut generations);
    let request = playback.take_decode_request().unwrap();
    assert_eq!(
        playback.complete_decode(request, Ok(frame(1, 2, 1)), seconds(60), &mut generations),
        DecodeOutcome::Transitioning
    );
    assert!(!playback.advance_transition(seconds(62)));
    assert!(!playback.is_transitioning());
}

#[test]
fn ordering_keeps_every_point_and_the_order_of_duplicates() {
    let mut generations = Generations::new();
    let metadata = metadata(vec![
        point(4, 0.5),
        point(1, 0.25),
        point(5, 0.5),
        point(2, 0.25),
        point(3, 0.25),
    ]);
    for (hour, expected) in [(5, 5), (6, 3), (11, 3), (12, 5), (23, 5)] {
        let playback = Playback::new(
            &metadata,
            image(9),
            AppearancePreference::Automatic,
            clock(hour, 0, 0, 0),
            0,
            false,
            &mut generations,
        );
        assert_eq!(playback.selected(), image(expected));
    }
}

#[test]
fn selection_without_metadata_is_the_primary_image() {
    let mut generations = Generations::new();
    let metadata = Metadata::default();
    let mut playback = Playback::new(
        &metadata,
        image(6),
        AppearancePreference::Automatic,
        clock(0, 0, 0, 0),
        0,
        false,
        &mut generations,
    );
    let request = playback.take_decode_request().unwrap();
    assert_eq!(request.image, image(6));
    assert_eq!(request.generation, 1);
    assert_eq!(generations.next, 2);
    assert_eq!(
        playback.complete_decode(request, Err(()), LAST_MOMENT, &mut generations),
        DecodeOutcome::Failed
    );
    assert_eq!(playback.take_decode_request(), None);
    // No moment is left at which the image could be tried again.
    assert_eq!(playback.next_wake(clock(0, 0, 0, 0), LAST_MOMENT), None);
}

#[test]
fn points_take_effect_at_their_boundary_on_the_monotonic_clock() {
    let points = vec![point(0, 0.25), point(1, 0.5)];
    assert_eq!(selected_point(&points, clock(5, 59, 59, 0)).image, image(1));
    assert_eq!(selected_point(&points, clock(6, 0, 0, 0)).image, image(0));
    assert_eq!(
        boundary_start(&points, clock(6, 0, 1, 0), seconds(100)),
        Some(seconds(99))
    );
    assert_eq!(boundary_start(&points, clock(6, 0, 2, 0), seconds(1)), None);
    // Yesterday's last point took effect at noon of the day before.
    assert_eq!(
        boundary_start(&points, clock(0, 0, 1, 0), seconds(50_000)),
        Some(seconds(50_000 - 43_201))
    );
}

#[test]
fn clocks_may_drift_by_a_second() {
    let before = clock(1, 0, 0, 0);
    let after = clock(1, 0, 10, 0);
    for (monotonic, expected) in [
        (seconds(10), false),
        (seconds(9), false),
        (seconds(9) - 1, true),
        (seconds(11), false),
        (seconds(11) + 1, true),
        (u128::MAX, true),
    ] {
        assert_eq!(clock_discontinuity(before, 0, after, monotonic), expected);
    }
    assert!(clock_discontinuity(before, seconds(20), after, seconds(10)));
    assert!(clock_discontinuity(before, 0, clock(1, 0, 10, 3_600), seconds(10)));
}

#[test]
fn frames_are_complete_opaque_and_within_their_limit() {
    let complete = frame(7, 2, 2);
    assert!(valid_frame_sized(&complete, 16, 16));
    assert!(!valid_frame_sized(&complete, 17, 16));
    assert!(!valid_frame_sized(&complete, 16, 15));
    assert!(valid_frame_with_limit(&complete, MAX_FRAME_BYTES));
    let empty = RgbaFrame {
        width: 0,
        height: 1,
        pixels: Vec::new(),
    };
    assert!(!valid_frame_sized(&empty, 0, 16));
    let huge = RgbaFrame {
        width: u32::MAX,
        height: u32::MAX,
        pixels: Vec::new(),
    };
    assert!(!valid_frame_sized(&huge, 0, usize::MAX));
    assert!(same_dimensions(&complete, &frame(1, 2, 2)));
    assert!(!same_dimensions(&complete, &frame(1, 4, 1)));
}

#[test]
fn blends_lead_from_one_frame_to_the_other() {
    let from = frame(10, 1, 1);
    let to = frame(210, 1, 1);
    let mut blend = frame(0, 1, 1);
    for (weight, expected) in [(0, 10), (64, 60), (128, 110), (256, 210)] {
        assert!(blend_into(&from, &to, &mut blend, weight));
        assert_eq!(blend.pixels, vec![expected, expected, expected, 255]);
        assert!(!blend_into(&from, &to, &mut blend, weight));
    }
}

#[test]
fn looking_twice_at_one_moment_changes_nothing_more() {
    let mut generations = Generations::new();
    let metadata = metadata(vec![point(0, 0.0), point(1, 0.5)]);
    let mut playback = Playback::new(
        &metadata,
        image(0),
        AppearancePreference::Automatic,
        clock(11, 0, 0, 0),
        0,
        false,
        &mut generations,
    );
    let first = playback.synchronize(clock(12, 0, 0, 0), seconds(3_600), &mut generations);
    assert!(first.selection_changed);
    let numbered = generations.next;
    let second = playback.synchronize(clock(12, 0, 0, 0), seconds(3_600), &mut generations);
    assert_eq!(
        second,
        SynchronizeOutcome {
            selection_changed: false,
            discontinuity: false,
            presentation_changed: false,
        }
    );
    assert_eq!(generations.next, numbered);
}

#[test]
fn appearances_stand_in_for_a_schedule() {
    let own = Appearance {
        light: image(1),
        dark: image(2),
    };
    let embedded = Appearance {
        light: image(3),
        dark: image(4),
    };
    let zero = Number::Integer(0);
    let solar = SolarPoint {
        image: image(5),
        position: SolarPosition::new(zero, zero).unwrap(),
    };
    let mut metadata = Metadata::default();
    assert!(matches!(
        metadata.select(AppearancePreference::Dark),
        Selection::Primary
    ));
    metadata
        .insert(
            AppleProperty::Solar,
            PropertyValue::Solar(Schedule::new(vec![solar], Some(embedded)).unwrap()),
        )
        .unwrap();
    for (preference, expected) in [
        (AppearancePreference::Automatic, 3),
        (AppearancePreference::Light, 3),
        (AppearancePreference::Dark, 4),
    ] {
        assert!(matches!(
            metadata.select(preference),
            Selection::Static(found) if found == image(expected)
        ));
    }
    metadata
        .insert(AppleProperty::Appearance, PropertyValue::Appearance(own))
        .unwrap();
    assert!(matches!(
        metadata.select(AppearancePreference::Dark),
        Selection::Static(found) if found == image(2)
    ));
    metadata
        .insert(
            AppleProperty::Time,
            PropertyValue::Time(Schedule::new(vec![point(6, 0.5)], None).unwrap()),
        )
        .unwrap();
    assert!(matches!(
        metadata.select(AppearancePreference::Dark),
        Selection::Time(schedule) if schedule.points()[0].image == image(6)
    ));
}
