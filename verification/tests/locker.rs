use genkan::locker::auth::{
    accept_worker, choose_worker, take_worker_message, terminal_event, worker_paths,
    worker_words_for, AuthError, AuthEvent, ChildStatus, WorkerMessage, WorkerStep,
};
use genkan::locker::canvas::{blend_circle, blend_pixel, blend_rounded_rect, paint, Shape};
use genkan::locker::coordination::{
    accept_connection, accept_runtime_directory, coordination_stem, enter, parse_start_time,
    peer_identity, place_display, wayland_socket_fd, Admission, CoordinationError, Coordinator,
    DisplayPlace, EnterAction, EnterEvent, Entering, PollAction, PollResult, SocketMetadata,
    MAX_WAITERS,
};
use genkan::locker::descriptors::{
    judge_ready_descriptor, locker_actions, worker_actions, FileAction, ReadyDescriptor,
};
use genkan::locker::identity::{
    gecos_name, identify, next_buffer_size, presentation_label, valid_username, Identity,
    IdentityError,
};
use genkan::locker::launcher::{
    child_environment, describe_ending, is_ready, judge_ready, must_move_writer, parse_descriptor,
    ready_message, LaunchError, Readiness,
};
use genkan::locker::overlay::{
    authentication_overlay_dimensions, count_typed, draw_glyphs, initials, leading_characters,
    overlay_layers, overlay_position, render_authentication_overlay, GlyphPixel, Layer,
    OverlayView,
};
use genkan::locker::preview::Fixture;
use genkan::locker::session::{
    authentication_input_enabled, forget, may_receive, observed, refresh, AuthTestEvent,
    InputAction, LockInput, LockSession, Redraw, Response,
};
use genkan::locker::LockError;
use genkan::wallpaper::presentation::Refresh;
use std::path::PathBuf;

#[test]
fn authentication_identity_uses_tahoe_style_initials() {
    assert_eq!(initials("Preview User"), "PU");
    assert_eq!(initials("alice"), "A");
    assert_eq!(initials(""), "");
}

#[test]
fn initials_are_the_first_letters_in_upper_case() {
    assert_eq!(leading_characters("  ada\tbyron  lovelace"), "ab");
    assert_eq!(initials("  ada\tbyron  lovelace"), "AB");
    // One letter may become two in upper case.
    assert_eq!(initials("ßtraße"), "SS");
}

#[test]
fn authentication_overlay_is_bounded_independently_of_wallpaper_size() {
    assert_eq!(authentication_overlay_dimensions(), (500, 400));
    assert_eq!(500 * 400 * 4, 800_000);
    assert_eq!(overlay_position(), (390, 200));
}

#[test]
fn authentication_field_has_transparent_rounded_corners() {
    let mut pixels = [0; 9 * 9 * 4];

    blend_rounded_rect(&mut pixels, 9, 0, 0, 9, 9, 4, [10, 20, 30, 255]);

    assert_eq!(&pixels[0..4], &[0, 0, 0, 0]);
    assert_eq!(
        &pixels[(4 * 9 + 4) * 4..(4 * 9 + 5) * 4],
        &[10, 20, 30, 255]
    );

    let mut capsule = vec![0; 52 * 52 * 4];
    blend_rounded_rect(&mut capsule, 52, 0, 0, 52, 52, 26, [10, 20, 30, 255]);
    assert_eq!(
        &capsule[(26 * 52 + 26) * 4..(26 * 52 + 27) * 4],
        &[10, 20, 30, 255]
    );
}

#[test]
fn alpha_blending_preserves_transparency_for_layered_rendering() {
    let mut transparent = [0, 0, 0, 0];

    blend_pixel(&mut transparent, 1, 0, 0, [7, 10, 24, 210]);
    assert_eq!(transparent, [7, 10, 24, 210]);

    blend_pixel(&mut transparent, 1, 0, 0, [255, 255, 255, 255]);
    assert_eq!(transparent, [255, 255, 255, 255]);
}

#[test]
fn pixels_outside_the_canvas_are_not_painted() {
    let mut pixels = [0u8; 8];
    for (x, y) in [(-1, 0), (0, -1), (2, 0), (0, 1), (i32::MAX, i32::MAX)] {
        blend_pixel(&mut pixels, 2, x, y, [9, 9, 9, 255]);
    }
    assert_eq!(pixels, [0; 8]);
    blend_pixel(&mut pixels, 2, 1, 0, [200, 100, 50, 128]);
    assert_eq!(pixels, [0, 0, 0, 0, 200, 100, 50, 128]);
    blend_pixel(&mut pixels, 2, 1, 0, [0, 0, 0, 128]);
    // Half of the half that is left shines through.
    assert_eq!(pixels[4..], [66, 33, 16, 191]);
}

#[test]
fn circles_stop_short_of_their_far_edge() {
    let mut pixels = [0u8; 5 * 5 * 4];
    blend_circle(&mut pixels, 5, 2, 2, 2, [1, 2, 3, 255]);
    let painted: Vec<usize> = (0..25).filter(|index| pixels[index * 4 + 3] != 0).collect();
    assert_eq!(painted, [2, 6, 7, 8, 10, 11, 12, 13, 16, 17, 18]);
    let mut again = [0u8; 5 * 5 * 4];
    paint(
        &mut again,
        5,
        Shape::Circle {
            center_x: 2,
            center_y: 2,
            radius: 2,
        },
        [1, 2, 3, 255],
    );
    assert_eq!(pixels, again);
}

fn view(typed: usize, confirmed: bool, notice: Option<&str>) -> OverlayView {
    OverlayView {
        initials: "PU".to_owned(),
        display_name: "Preview User".to_owned(),
        username: "preview".to_owned(),
        confirmed,
        prompt: "Password".to_owned(),
        typed,
        notice: notice.map(str::to_owned),
        notice_is_error: false,
    }
}

fn texts(view: &OverlayView) -> Vec<String> {
    overlay_layers(view)
        .into_iter()
        .filter_map(|layer| match layer {
            Layer::Text(layer) => Some(layer.text),
            Layer::Shape(..) => None,
        })
        .collect()
}

#[test]
fn overlays_show_who_is_asked_for_what() {
    assert_eq!(
        texts(&view(0, false, None)),
        [
            "PU",
            "PU",
            "Preview User",
            "Preview User",
            "@preview",
            "@preview",
            "Securing session…",
            "Securing session…"
        ]
    );
    let asked = texts(&view(0, true, None));
    assert_eq!(asked[6..], ["Password", "→"]);
    let typed = texts(&view(3, true, Some("Try again")));
    assert_eq!(typed[6..], ["•••", "→", "Try again", "Try again"]);
}

#[test]
fn overlays_are_rendered_layer_by_layer() {
    let layers = overlay_layers(&view(0, false, None));
    let mut glyphs: Vec<Vec<GlyphPixel>> = layers.iter().map(|_| Vec::new()).collect();
    glyphs[2].push(GlyphPixel {
        x: 1,
        y: -45,
        color: [255, 0, 0, 255],
    });
    let (width, height) = authentication_overlay_dimensions();
    let mut pixels = vec![0; (width * height * 4) as usize];
    render_authentication_overlay(&mut pixels, width, &layers, &glyphs);
    // The shadow of the initials starts at row 45, so its glyph lies in the first row.
    assert_eq!(pixels[4..8], [255, 0, 0, 255]);
    // The picture covers the middle of its circle twice.
    let middle = ((66 * width + 250) * 4) as usize;
    let mut expected = [0; 4];
    blend_pixel(&mut expected, 1, 0, 0, [255, 255, 255, 90]);
    blend_pixel(&mut expected, 1, 0, 0, [24, 31, 46, 220]);
    assert_eq!(pixels[middle..middle + 4], expected);

    let mut row = [0u8; 8];
    draw_glyphs(
        &mut row,
        2,
        1,
        0,
        &vec![GlyphPixel {
            x: 0,
            y: 0,
            color: [1, 2, 3, 255],
        }],
    );
    assert_eq!(row, [0, 0, 0, 0, 1, 2, 3, 255]);
}

#[test]
fn authentication_input_is_disabled_before_compositor_confirmation() {
    assert!(!authentication_input_enabled(false));
    assert!(authentication_input_enabled(true));
}

#[test]
fn authentication_observer_uses_fixed_non_secret_event_names() {
    assert_eq!(
        [
            AuthTestEvent::Prompt,
            AuthTestEvent::Retry,
            AuthTestEvent::Success,
            AuthTestEvent::Failure,
        ]
        .map(AuthTestEvent::name),
        ["AUTH_PROMPT", "AUTH_RETRY", "AUTH_SUCCESS", "AUTH_FAILURE"]
    );
}

#[test]
fn only_a_success_on_both_sides_authorizes() {
    let mut session = LockSession::new(7);
    assert!(!may_receive(&session, 0));
    assert!(matches!(session.input(LockInput::Submit, true), InputAction::Ignore));
    assert!(!session.lock_confirmed(true));
    assert!(may_receive(&session, 31));
    assert!(!may_receive(&session, 32));
    let prompt = AuthEvent::Prompt {
        id: 3,
        secret: true,
        text: "Password".to_owned(),
    };
    let response = session.receive(prompt, true).unwrap();
    assert_eq!(observed(&response, false), Some(AuthTestEvent::Prompt));
    assert!(matches!(response, Response::Prompt { secret: true, message } if message == "Password"));
    assert_eq!(session.prompt_id, Some(3));
    assert!(matches!(session.input(LockInput::Submit, false), InputAction::Submit(3)));
    assert!(matches!(session.input(LockInput::Submit, false), InputAction::Ignore));
    assert_eq!(session.answer(Some(7)), Some(true));
    assert_eq!(session.answer(Some(8)), Some(false));
    assert_eq!(session.answer(None), None);

    // A success the conversation does not agree with lets nobody in.
    let response = session.receive(AuthEvent::Success, true).unwrap();
    session.succeeded(false);
    assert_eq!(observed(&response, false), None);
    assert!(!session.take_authorization());
    session.receive(AuthEvent::Success, true);
    session.succeeded(true);
    assert_eq!(observed(&Response::Success, true), Some(AuthTestEvent::Success));
    assert!(session.take_authorization());
    assert!(!session.take_authorization());
}

#[test]
fn failures_and_stale_attempts_are_kept_apart() {
    let mut session = LockSession::new(1);
    session.lock_confirmed(true);
    assert!(session.receive(AuthEvent::Failure, false).is_none());
    let response = session.receive(AuthEvent::Failure, true).unwrap();
    assert_eq!(observed(&response, false), Some(AuthTestEvent::Failure));
    assert!(matches!(response, Response::Failure(text) if text == "Authentication failed"));
    let notice = AuthEvent::Notice {
        error: true,
        text: "Locked out".to_owned(),
    };
    let response = session.receive(notice, true).unwrap();
    assert_eq!(observed(&response, false), None);
    assert!(matches!(response, Response::Notice { error: true, .. }));

    // A worker that can go on takes the next attempt; one that cannot is replaced.
    assert!(!session.retry(2, true));
    assert_eq!(session.attempt, Some(2));
    assert!(session.retry(3, false));
    assert_eq!(session.attempt, None);
    assert!(session.replace_worker(3, true, false));
    assert!(!session.replace_worker(3, true, true));
    assert!(matches!(session.input(LockInput::Cancel, false), InputAction::CancelAttempt));
    session.cancel_attempt();
    assert!(matches!(session.input(LockInput::Cancel, false), InputAction::Ignore));
    assert!(LockSession::new(1).lock_confirmed(false));
}

#[test]
fn what_is_typed_goes_to_the_answer() {
    let mut session = LockSession::new(1);
    session.lock_confirmed(true);
    assert!(matches!(
        session.input(LockInput::Text("x".to_owned()), false),
        InputAction::Push(text) if text == "x"
    ));
    assert!(matches!(session.input(LockInput::Backspace, false), InputAction::Pop));
    assert!(matches!(session.input(LockInput::Submit, true), InputAction::Retry));
    let mut secret = "hunter2".to_owned();
    forget(&mut secret);
    assert_eq!(secret, "");
    assert_eq!(count_typed("pässword"), 8);
}

#[test]
fn a_refresh_draws_no_more_than_what_changed() {
    assert_eq!(
        refresh(false, Refresh::Unchanged),
        (Refresh::Unchanged, Redraw::Nothing)
    );
    assert_eq!(
        refresh(true, Refresh::Unchanged),
        (Refresh::Frame, Redraw::Overlay)
    );
    assert_eq!(
        refresh(true, Refresh::Frame),
        (Refresh::Frame, Redraw::Everything)
    );
    assert_eq!(
        refresh(false, Refresh::Failed),
        (Refresh::Failed, Redraw::Everything)
    );
}

#[test]
fn terminal_success_requires_expected_identity_and_clean_exit() {
    assert!(matches!(
        terminal_event(true, Some(ChildStatus::Exited(0))),
        AuthEvent::Success
    ));
    assert!(matches!(
        terminal_event(true, Some(ChildStatus::Exited(1))),
        AuthEvent::Failure
    ));
    assert!(matches!(
        terminal_event(true, Some(ChildStatus::Signaled(9))),
        AuthEvent::Failure
    ));
    assert!(matches!(terminal_event(true, None), AuthEvent::Failure));
    assert!(matches!(
        terminal_event(false, Some(ChildStatus::Exited(0))),
        AuthEvent::Failure
    ));
}

#[test]
fn malformed_worker_output_fails_closed() {
    assert!(matches!(take_worker_message(None), WorkerStep::Fail));
    assert!(matches!(
        take_worker_message(Some(WorkerMessage::Other)),
        WorkerStep::Fail
    ));
    assert!(matches!(
        take_worker_message(Some(WorkerMessage::Ready {
            uid: 1000,
            username: "alice".to_owned()
        })),
        WorkerStep::Fail
    ));
}

#[test]
fn worker_messages_become_events() {
    assert!(matches!(
        take_worker_message(Some(WorkerMessage::Prompt {
            id: 4,
            secret: true,
            text: "Password".to_owned()
        })),
        WorkerStep::Send(AuthEvent::Prompt { id: 4, secret: true, .. })
    ));
    assert!(matches!(
        take_worker_message(Some(WorkerMessage::Info("hello".to_owned()))),
        WorkerStep::Send(AuthEvent::Notice { error: false, .. })
    ));
    assert!(matches!(
        take_worker_message(Some(WorkerMessage::Error("no".to_owned()))),
        WorkerStep::Send(AuthEvent::Notice { error: true, .. })
    ));
    assert!(matches!(
        take_worker_message(Some(WorkerMessage::Failure)),
        WorkerStep::Send(AuthEvent::Failure)
    ));
    assert!(matches!(
        take_worker_message(Some(WorkerMessage::Success)),
        WorkerStep::AwaitExit
    ));
}

#[test]
fn startup_rejects_missing_or_mismatched_ready_identity() {
    let ready = |uid, username: &str| {
        Ok(WorkerMessage::Ready {
            uid,
            username: username.to_owned(),
        })
    };
    for (uid, username) in [(1001_u32, "alice"), (1000, "mallory")] {
        assert!(matches!(
            accept_worker(ready(uid, username), 1000, "alice"),
            Err(AuthError::UnexpectedWorker)
        ));
    }
    assert!(matches!(
        accept_worker(Err("closed".to_owned()), 1000, "alice"),
        Err(AuthError::Protocol(_))
    ));
    assert!(matches!(
        accept_worker(Ok(WorkerMessage::Success), 1000, "alice"),
        Err(AuthError::UnexpectedWorker)
    ));
    assert!(accept_worker(ready(1000, "alice"), 1000, "alice").is_ok());
}

#[test]
fn workers_are_found_beside_the_program_or_installed() {
    let places = worker_paths(&PathBuf::from("/opt/genkan/bin/genkan"));
    assert_eq!(
        places,
        Some((
            PathBuf::from("/opt/genkan/bin/genkan-lock-auth"),
            Some(PathBuf::from("/opt/genkan/libexec/genkan-lock-auth"))
        ))
    );
    assert_eq!(worker_paths(&PathBuf::from("/")), None);
    assert_eq!(
        choose_worker(places.clone(), true, true).unwrap(),
        PathBuf::from("/opt/genkan/bin/genkan-lock-auth")
    );
    assert_eq!(
        choose_worker(places.clone(), false, true).unwrap(),
        PathBuf::from("/opt/genkan/libexec/genkan-lock-auth")
    );
    assert!(matches!(
        choose_worker(places, false, false),
        Err(AuthError::WorkerNotFound)
    ));
    assert!(matches!(
        choose_worker(None, true, true),
        Err(AuthError::WorkerNotFound)
    ));
    assert_eq!(worker_words_for(4711), ["--fd", "3", "--parent-pid", "4711"]);
}

#[test]
fn children_keep_no_descriptor_but_their_own() {
    assert_eq!(
        worker_actions(9),
        [
            FileAction::Duplicate(9, 3),
            FileAction::Close(9),
            FileAction::OpenNull {
                descriptor: 0,
                writable: false
            },
            FileAction::OpenNull {
                descriptor: 1,
                writable: true
            },
            FileAction::OpenNull {
                descriptor: 2,
                writable: true
            },
            FileAction::CloseFrom(4),
        ]
    );
    assert_eq!(worker_actions(3).len(), 5);
    assert_eq!(
        locker_actions(5, 6, None),
        [
            FileAction::Duplicate(6, 3),
            FileAction::Close(5),
            FileAction::Close(6),
            FileAction::CloseFrom(4),
        ]
    );
    assert_eq!(
        locker_actions(3, 4, Some(64)),
        [
            FileAction::Duplicate(4, 3),
            FileAction::Duplicate(64, 4),
            FileAction::CloseFrom(5),
        ]
    );
    assert!(must_move_writer(3));
    assert!(!must_move_writer(4));
}

#[test]
fn readiness_descriptors_must_be_writable() {
    assert_eq!(
        judge_ready_descriptor(true, false, 1),
        ReadyDescriptor::Usable
    );
    assert_eq!(
        judge_ready_descriptor(true, false, 2),
        ReadyDescriptor::Usable
    );
    for access in [0, 3] {
        assert_eq!(
            judge_ready_descriptor(true, false, access),
            ReadyDescriptor::NotWritable
        );
    }
    assert_eq!(
        judge_ready_descriptor(true, true, 1),
        ReadyDescriptor::NotWritable
    );
    assert_eq!(
        judge_ready_descriptor(false, false, 1),
        ReadyDescriptor::Unreadable
    );
}

#[test]
fn compositor_generation_changes_the_coordination_identity() {
    let original = coordination_stem(1, 2);

    assert_ne!(original, coordination_stem(3, 2));
    assert_ne!(original, coordination_stem(1, 3));
}

#[test]
fn coordination_names_are_hexadecimal() {
    assert_eq!(coordination_stem(4096, 255), "genkan-lock-1000-ff");
    assert_eq!(coordination_stem(-1, 0), "genkan-lock-ffffffff-0");
}

#[test]
fn inherited_wayland_errors_name_both_environment_sources() {
    for value in [Some("not-a-descriptor"), Some("-1"), Some(""), Some("99999999999"), None] {
        assert!(matches!(
            wayland_socket_fd(value),
            Err(CoordinationError::WaylandConnection)
        ));
    }
    assert!(matches!(wayland_socket_fd(Some("17")), Ok(17)));
    assert!(matches!(wayland_socket_fd(Some("+17")), Ok(17)));
    assert_eq!(
        CoordinationError::WaylandConnection.message(),
        "WAYLAND_SOCKET or WAYLAND_DISPLAY must identify a compositor connection"
    );
    assert_eq!(parse_descriptor("-0"), Some(0));
    assert_eq!(parse_descriptor("2147483648"), None);
}

#[test]
fn peers_are_known_by_when_they_started() {
    let record = "4711 (a) b) S 1 2 3 4 5 6 7 8 9 10 11 12 13 14 15 16 17 18 987654 20 21";
    assert_eq!(parse_start_time(record), Some(987654));
    assert_eq!(peer_identity(4711, Some(record)), Some((4711, 987654)));
    assert_eq!(peer_identity(0, Some(record)), None);
    assert_eq!(peer_identity(4711, None), None);
    assert_eq!(parse_start_time("4711 sway S 1"), None);
    assert_eq!(parse_start_time("4711 (sway) S 1 2"), None);
    assert_eq!(
        parse_start_time("1 (x) 0 1 2 3 4 5 6 7 8 9 10 11 12 13 14 15 16 17 18 x"),
        None
    );
}

#[test]
fn connections_and_directories_are_checked() {
    let socket = SocketMetadata {
        device: 1,
        inode: 2,
        changed_seconds: 3,
        changed_nanoseconds: 4,
    };
    assert!(accept_connection(Some(socket), Some(socket)));
    assert!(!accept_connection(
        Some(socket),
        Some(SocketMetadata { inode: 5, ..socket })
    ));
    assert!(!accept_connection(None, None));
    assert!(!accept_connection(Some(socket), None));
    assert!(accept_runtime_directory(true, true, true, 0o40700).is_ok());
    for (absolute, directory, owned, mode) in [
        (false, true, true, 0o700),
        (true, false, true, 0o700),
        (true, true, false, 0o700),
        (true, true, true, 0o710),
        (true, true, true, 0o701),
    ] {
        assert!(matches!(
            accept_runtime_directory(absolute, directory, owned, mode),
            Err(CoordinationError::RuntimeDirectory)
        ));
    }
    assert!(matches!(place_display(Some((true, 3))), Ok(DisplayPlace::Absolute)));
    assert!(matches!(place_display(Some((false, 1))), Ok(DisplayPlace::BelowRuntime)));
    assert!(matches!(
        place_display(Some((false, 2))),
        Err(CoordinationError::WaylandConnection)
    ));
    assert!(matches!(
        place_display(None),
        Err(CoordinationError::WaylandConnection)
    ));
}

#[test]
fn duplicate_waits_for_the_owner_confirmation() {
    // The first entrant takes the lease.
    assert_eq!(
        enter(Entering::Locking, EnterEvent::Locked(true)).1,
        EnterAction::Own
    );
    let mut owner = Coordinator::new();
    // A second one connects and is kept waiting.
    let (state, action) = enter(Entering::Locking, EnterEvent::Locked(false));
    assert_eq!((state, action), (Entering::Connecting, EnterAction::Connect));
    let (state, action) = enter(state, EnterEvent::Connected);
    assert_eq!((state, action), (Entering::Waiting, EnterAction::Read));
    assert_eq!(owner.accept(), Admission::Keep);
    // The compositor confirms, and the one that waits is told.
    assert_eq!(owner.confirm(Some(b"READY\n".to_vec())), Some(1));
    assert_eq!(owner.accept(), Admission::Announce);
    assert_eq!(
        enter(state, EnterEvent::Said(b"READY\n".to_vec())).1,
        EnterAction::Join
    );
}

#[test]
fn duplicate_fails_when_owner_exits_before_confirmation() {
    assert_eq!(
        enter(Entering::Waiting, EnterEvent::Said(Vec::new())).1,
        EnterAction::Fail
    );
    assert_eq!(
        CoordinationError::ExistingLockerFailed.message(),
        "the existing locker exited before compositor confirmation"
    );
}

#[test]
fn caller_that_observed_an_owner_cannot_replace_its_failed_lifecycle() {
    let (state, action) = enter(Entering::Connecting, EnterEvent::Unreachable);
    assert_eq!((state, action), (Entering::Relocking, EnterAction::Lock));
    assert_eq!(enter(state, EnterEvent::Locked(true)).1, EnterAction::Fail);
    assert_eq!(
        enter(state, EnterEvent::Locked(false)),
        (Entering::Connecting, EnterAction::Sleep)
    );
}

#[test]
fn owners_keep_a_bounded_number_waiting() {
    let mut owner = Coordinator::new();
    for _ in 0..MAX_WAITERS {
        assert_eq!(owner.accept(), Admission::Keep);
    }
    assert_eq!(owner.accept(), Admission::Refuse);
    assert_eq!(owner.confirm(None), None);
    assert_eq!(owner.confirm(Some(b"NOPE\n".to_vec())), None);
    assert!(!owner.confirmed);
    assert_eq!(owner.confirm(Some(b"READY\n".to_vec())), Some(MAX_WAITERS));
}

#[test]
fn owners_stop_before_anything_else() {
    let owner = Coordinator::new();
    let woken = |listener, ready, stop| PollResult::Woken {
        listener,
        ready,
        stop,
    };
    assert_eq!(owner.polled(PollResult::Interrupted), PollAction::Poll);
    assert_eq!(owner.polled(PollResult::Failed), PollAction::Return);
    assert_eq!(owner.polled(woken(true, true, true)), PollAction::Return);
    assert_eq!(
        owner.polled(woken(true, true, false)),
        PollAction::ReadReady { accept: true }
    );
    assert_eq!(owner.polled(woken(true, false, false)), PollAction::Accept);
    assert_eq!(owner.polled(woken(false, false, false)), PollAction::Poll);
    let confirmed = Coordinator {
        waiters: 0,
        confirmed: true,
    };
    assert_eq!(confirmed.polled(woken(false, true, false)), PollAction::Poll);
}

#[test]
fn lockers_report_readiness_in_one_line() {
    assert_eq!(ready_message(), b"READY\n");
    assert!(is_ready(b"READY\n"));
    assert!(!is_ready(b"READY"));
    assert_eq!(judge_ready(b"READY\n"), Readiness::Ready);
    assert_eq!(judge_ready(b"READY\nx"), Readiness::Invalid);
    assert_eq!(judge_ready(b""), Readiness::Closed);
    assert_eq!(describe_ending(ChildStatus::Exited(3)), " with status 3");
    assert_eq!(describe_ending(ChildStatus::Signaled(11)), " after signal 11");
    assert_eq!(describe_ending(ChildStatus::Exited(-7)), " with status -7");
    assert_eq!(describe_ending(ChildStatus::Other), "");
    assert_eq!(
        LaunchError::ChildFailed(" with status 3".to_owned()).message(),
        "foreground locker exited before compositor confirmation with status 3"
    );
}

#[test]
fn children_get_the_compositor_on_its_fixed_descriptor() {
    let variables = vec![
        (b"HOME".to_vec(), b"/root".to_vec()),
        (b"WAYLAND_SOCKET".to_vec(), b"17".to_vec()),
        (b"EMPTY".to_vec(), Vec::new()),
    ];
    assert_eq!(
        child_environment(&variables, true),
        Some(vec![
            b"HOME=/root".to_vec(),
            b"EMPTY=".to_vec(),
            b"WAYLAND_SOCKET=4".to_vec()
        ])
    );
    assert_eq!(child_environment(&variables, false).unwrap().len(), 2);
    let broken = vec![(b"A".to_vec(), b"x\0y".to_vec())];
    assert_eq!(child_environment(&broken, false), None);
    // What is left out anyway may hold anything.
    let hidden = vec![(b"WAYLAND_SOCKET".to_vec(), b"\0".to_vec())];
    assert_eq!(child_environment(&hidden, false), Some(Vec::new()));
}

#[test]
fn the_overlay_shows_how_much_was_typed_and_not_what() {
    let identity = Identity {
        uid: 1000,
        username: "ada".to_owned(),
        display_name: "Ada Lovelace King".to_owned(),
    };
    let of = |input: &str| OverlayView::of(&identity, true, "Password", input, Some("no"), true);
    let view = of("h\u{e9}l");
    assert_eq!((view.initials.as_str(), view.typed), ("AL", 3));
    assert_eq!((view.display_name.as_str(), view.username.as_str()), ("Ada Lovelace King", "ada"));
    assert_eq!((view.prompt.as_str(), view.notice.as_deref()), ("Password", Some("no")));
    assert!(view.confirmed && view.notice_is_error);
    assert_eq!(
        format!("{:?}", overlay_layers(&view)),
        format!("{:?}", overlay_layers(&of("xyz")))
    );
}

#[test]
fn nothing_is_taken_before_the_lock_is_confirmed() {
    let mut session = LockSession::new(1);
    assert!(session.receive(AuthEvent::Success, true).is_none());
    session.succeeded(true);
    assert!(!session.take_authorization());
    assert!(!session.lock_confirmed(true));
    assert!(session.receive(AuthEvent::Success, true).is_some());
    session.succeeded(true);
    assert!(session.take_authorization());
}

#[test]
fn identities_come_from_the_user_database() {
    assert_eq!(gecos_name("Ada Lovelace,Room 1,,"), "Ada Lovelace");
    assert_eq!(gecos_name(",x"), "");
    assert_eq!(gecos_name("Ada"), "Ada");
    let named = identify(1000, Some("ada".to_owned()), " Ada Lovelace\u{7},Room 1").unwrap();
    assert_eq!(
        (named.uid, named.username.as_str(), named.display_name.as_str()),
        (1000, "ada", "Ada Lovelace")
    );
    let unnamed = identify(1000, Some("ada".to_owned()), " ,Room 1").unwrap();
    assert_eq!(unnamed.display_name, "ada");
    assert!(matches!(
        identify(1000, Some("a b".to_owned()), "Ada"),
        Err(IdentityError::Invalid)
    ));
    assert!(matches!(
        identify(1000, None, "Ada"),
        Err(IdentityError::Invalid)
    ));
    assert!(valid_username("ada"));
    assert!(!valid_username(""));
    assert_eq!(presentation_label("Ada\u{ad} L").as_deref(), Some("Ada L"));
    assert_eq!(presentation_label("\n"), None);
    assert_eq!(next_buffer_size(1024), Some(2048));
    assert_eq!(next_buffer_size(1024 * 1024 - 1), Some(1024 * 1024));
    assert_eq!(next_buffer_size(1024 * 1024), None);
}

#[test]
fn lock_errors_are_sentences() {
    assert_eq!(
        LockError::Identity(IdentityError::NotFound).message(),
        "could not resolve lock identity: could not resolve the real user ID through NSS"
    );
    assert_eq!(
        LockError::ReadyFd("bad".to_owned()).message(),
        "could not adopt readiness descriptor: bad"
    );
    assert_eq!(
        LockError::Coordination(CoordinationError::RuntimeDirectory).message(),
        "XDG_RUNTIME_DIR must name an absolute private directory owned by the invoking user"
    );
    assert_eq!(
        LockError::Coordination(CoordinationError::Io("gone".to_owned())).message(),
        "could not coordinate the compositor lock lifecycle: gone"
    );
    assert_eq!(
        LockError::Launcher(LaunchError::InvalidReady).message(),
        "foreground locker sent an invalid readiness message"
    );
    assert_eq!(
        LockError::Launcher(LaunchError::Spawn("gone".to_owned())).message(),
        "could not start the foreground locker: gone"
    );
    assert_eq!(
        LockError::Authentication(AuthError::WorkerNotFound).message(),
        "could not locate the private authentication worker"
    );
    assert_eq!(
        LockError::Authentication(AuthError::Spawn("gone".to_owned())).message(),
        "could not start the authentication worker: gone"
    );
    assert_eq!(
        LockError::Authentication(AuthError::UnexpectedWorker).message(),
        "authentication worker did not provide the expected identity"
    );
    assert_eq!(
        LockError::Authentication(AuthError::Protocol("short".to_owned())).message(),
        "authentication protocol failed: short"
    );
    assert_eq!(LockError::Runtime("no lock".to_owned()).message(), "no lock");
    assert_eq!(
        IdentityError::Invalid.message(),
        "NSS returned an invalid login identity"
    );
    assert_eq!(
        IdentityError::System("EIO".to_owned()).message(),
        "could not resolve the real user ID: EIO"
    );
}

#[test]
fn fixtures_are_deterministic_without_authentication_or_lock_services() {
    for fixture in [Fixture::Securing, Fixture::Prompt, Fixture::Failure] {
        let first = fixture.conversation();
        let second = fixture.conversation();
        assert_eq!(first.confirmed, second.confirmed, "fixture {fixture:?}");
        assert_eq!(first.input, second.input, "fixture {fixture:?}");
        assert_eq!(first.prompt, second.prompt, "fixture {fixture:?}");
        assert_eq!(first.notice, second.notice, "fixture {fixture:?}");
        assert_eq!(first.failed, second.failed, "fixture {fixture:?}");
    }
}

#[test]
fn fixtures_show_each_state_of_the_locker() {
    assert_eq!(Fixture::default(), Fixture::Prompt);
    let securing = Fixture::Securing.view();
    assert!(!securing.confirmed);
    let prompt = Fixture::Prompt.view();
    assert_eq!((prompt.typed, prompt.prompt.as_str()), (7, "Password"));
    assert_eq!(prompt.initials, "PU");
    let failure = Fixture::Failure.view();
    assert_eq!(failure.notice.as_deref(), Some("Authentication failed"));
    assert!(failure.notice_is_error);
}
