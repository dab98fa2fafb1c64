use genkan::arguments::{
    animate_wallpaper, judge_wallpaper_file, lock_config, parse_dimension, parse_display_name,
    parse_ready_fd, parse_username, parse_wallpaper_file, window_size, ArgumentError,
};
use genkan::geoclue::{
    has_location, next_step, step_failed, within_time, GeoClueError, GeoLocation, RequestStep,
    CITY_ACCURACY_LEVEL, DESKTOP_ID, MAX_CITY_ACCURACY_METERS,
};
use genkan::outputs::{
    inherited_wayland_socket, layout_fits, placed_outputs, select_output, select_region, watch, Output,
    OutputInfo, Published, Region, Transfer, WatchAction, WatchEvent,
};
use genkan::power::{Action, PowerError};
use genkan::sessions::{
    command_of, discover, entry_id, is_desktop_entry, is_desktop_extension, parse_desktop_entry,
    program_places, remove_field_codes, session_directories, Candidate, DesktopEntry, Offer,
    Session,
};
use genkan::text;
use genkan::theme::{
    account_tile, avatar, dialog, dialog_button, inactive_control, input, modal_scrim, muted_text,
    preview_badge, primary_button, primary_text, scrollbar, secondary_button, secondary_text,
    selector, selector_menu, status_text, strong_secondary_text, ButtonStatus, Outline,
    ScrollStatus, SelectorStatus, Tint, CONTROL_RADIUS, EMPHASIS_WIDTH,
};
use genkan::wallpaper::catalog::Catalog;
use std::path::PathBuf;

fn owned(words: &[&str]) -> Vec<String> {
    words.iter().map(|word| (*word).to_owned()).collect()
}

// Sessions

#[test]
fn creates_wayland_environment() {
    let session = Session {
        name: "River".into(),
        command: vec!["river".into()],
        session_id: "river-session".into(),
        desktop_names: vec!["River".into(), "wlroots".into()],
    };

    assert_eq!(
        session.environment(),
        [
            "XDG_SESSION_TYPE=wayland",
            "XDG_SESSION_DESKTOP=river-session",
            "XDG_CURRENT_DESKTOP=River:wlroots",
        ]
    );
}

#[test]
fn omits_current_desktop_without_desktop_names() {
    let session = Session {
        name: "Niri".into(),
        command: vec!["niri".into()],
        session_id: "niri".into(),
        desktop_names: Vec::new(),
    };

    assert_eq!(
        session.environment(),
        ["XDG_SESSION_TYPE=wayland", "XDG_SESSION_DESKTOP=niri"]
    );
}

#[test]
fn parses_wayland_session() {
    let path = PathBuf::from("/usr/share/wayland-sessions/sway.desktop");
    let parsed = parse_desktop_entry(
        &path,
        "[Desktop Entry]\nName=Sway Desktop\nExec=sway --unsupported-gpu %U\nDesktopNames=sway;wlroots\n",
    )
    .unwrap();
    assert_eq!(parsed.name, "Sway Desktop");
    assert_eq!(parsed.command, ["sway", "--unsupported-gpu"]);
    assert_eq!(parsed.session_id, "sway");
    assert_eq!(parsed.desktop_names, ["sway", "wlroots"]);
}

#[test]
fn ignores_hidden_sessions() {
    let path = PathBuf::from("/usr/share/wayland-sessions/hidden.desktop");
    assert_eq!(
        parse_desktop_entry(
            &path,
            "[Desktop Entry]\nName=Hidden\nExec=hidden-session\nHidden=true\n"
        ),
        None
    );
}

#[test]
fn uses_file_name_as_session_id_without_inventing_a_desktop_name() {
    let path = PathBuf::from("/usr/share/wayland-sessions/niri.desktop");
    let parsed =
        parse_desktop_entry(&path, "[Desktop Entry]\nName=Niri\nExec=niri --session\n").unwrap();
    assert_eq!(parsed.session_id, "niri");
    assert!(parsed.desktop_names.is_empty());
}

#[test]
fn entries_are_read_line_by_line() {
    let path = PathBuf::from("/x/river.desktop");
    // Carriage returns, comments, other groups and unknown keys change nothing,
    // quotes keep words together, and the last value of a key counts.
    let parsed = parse_desktop_entry(
        &path,
        "Name=Outside\r\n[Desktop Entry]\r\n# Name=Comment\r\n  Name = Spaced\r\nName=First\r\nName=River\r\n\
         Exec=river -c \"a b\" %f\r\nDesktopNames=;river;;\r\nHidden=TRUE\r\nHidden=no\r\nBare\r\n\
         [Desktop Action x]\r\nName=Other\r\nExec=other\r\n",
    )
    .unwrap();
    assert_eq!(parsed.name, "River");
    assert_eq!(parsed.command, ["river", "-c", "a b"]);
    assert_eq!(parsed.desktop_names, ["river"]);
    // An entry without a name, a command, or closed quotes is no session.
    for contents in [
        "[Desktop Entry]\nExec=river\n",
        "[Desktop Entry]\nName=River\n",
        "[Desktop Entry]\nName=River\nExec=\n",
        "[Desktop Entry]\nName=River\nExec=%U\n",
        "[Desktop Entry]\nName=River\nExec=\"river\n",
        "[Desktop Entry]\nName=River\nExec=river\nNoDisplay=true\n",
        "[Desktop Entry]\nName=River\nExec=river\nType=Link\n",
        "[Desktop Entry]\nName=River\nExec=bin/river\n",
    ] {
        assert_eq!(parse_desktop_entry(&path, contents), None, "{contents}");
    }
    let absolute = parse_desktop_entry(
        &path,
        "[Desktop Entry]\nType=Application\nName=River\nExec=/opt/river\n",
    );
    assert_eq!(absolute.unwrap().command, ["/opt/river"]);
    let entry = DesktopEntry::read("[Desktop Entry]\nTryExec=/opt/river\n");
    assert_eq!(entry.try_exec.as_deref(), Some("/opt/river"));
}

#[test]
fn commands_lose_what_a_launcher_fills_in() {
    assert_eq!(
        remove_field_codes(owned(&["a", "%U", "b%%", "%%", "--x=%c", ""])),
        ["a", "b%", "%", "--x=", ""]
    );
    assert_eq!(command_of(None), None);
    // An unknown code, and a percent sign that starts none.
    assert_eq!(command_of(Some(owned(&["a", "%x"]))), None);
    assert_eq!(command_of(Some(owned(&["a", "50%"]))), None);
    assert_eq!(command_of(Some(owned(&["a", "50%%"]))).unwrap(), ["a", "50%"]);
    assert_eq!(command_of(Some(owned(&["%i"]))), Some(Vec::new()));
}

#[test]
fn entries_are_known_by_their_files() {
    assert_eq!(entry_id(&PathBuf::from("/x/sway.desktop")).as_deref(), Some("sway"));
    assert_eq!(entry_id(&PathBuf::from("/")), None);
    assert!(is_desktop_entry(&PathBuf::from("/x/sway.desktop")));
    assert!(!is_desktop_entry(&PathBuf::from("/x/sway.DESKTOP")));
    assert!(!is_desktop_entry(&PathBuf::from("/x/desktop")));
    assert!(!is_desktop_extension(None));
}

fn candidate(id: &str, name: &str, command: &str) -> Candidate {
    Candidate {
        id: id.to_owned(),
        session: Some(Session {
            name: name.to_owned(),
            command: owned(&[command]),
            session_id: id.to_owned(),
            desktop_names: Vec::new(),
        }),
        available: true,
    }
}

#[test]
fn programs_are_looked_for_by_path_or_in_the_search() {
    let search = vec![PathBuf::from("/usr/bin"), PathBuf::from("/opt/bin")];
    assert_eq!(
        program_places("sway", &search),
        [PathBuf::from("/usr/bin/sway"), PathBuf::from("/opt/bin/sway")]
    );
    assert_eq!(
        program_places("/opt/sway/sway", &search),
        [PathBuf::from("/opt/sway/sway")]
    );
    // A path that depends on the working directory names no place.
    assert!(program_places("bin/sway", &search).is_empty());
    assert!(program_places("sway", &Vec::new()).is_empty());
}

#[test]
fn a_session_is_available_with_its_programs() {
    let search = vec![PathBuf::from("/usr/bin")];
    let read = |contents| Offer::read("sway".to_owned(), contents, &search);

    let plain = read(Some("[Desktop Entry]\nName=Sway\nExec=sway --debug\n"));
    assert!(plain.tried.is_none());
    assert_eq!(plain.places, [PathBuf::from("/usr/bin/sway")]);
    let candidate = plain.settle(false, true);
    assert!(candidate.available);
    assert_eq!(candidate.id, "sway");
    assert_eq!(candidate.session.unwrap().command, ["sway", "--debug"]);

    let trying = || {
        read(Some(
            "[Desktop Entry]\nName=Sway\nExec=sway\nTryExec=/opt/sway\n",
        ))
    };
    assert_eq!(trying().tried, Some(vec![PathBuf::from("/opt/sway")]));
    for (tried, found) in [(false, false), (false, true), (true, false), (true, true)] {
        assert_eq!(trying().settle(tried, found).available, tried && found);
    }

    // What cannot be read or shown offers nothing.
    for contents in [None, Some("[Desktop Entry]\nName=Sway\n")] {
        let offer = read(contents);
        assert!(offer.session.is_none() && offer.places.is_empty());
        assert!(!offer.settle(true, true).available);
    }
}

#[test]
fn sessions_are_offered_once_and_by_name() {
    let hidden = Candidate {
        id: "gone".to_owned(),
        session: None,
        available: true,
    };
    let missing = Candidate {
        available: false,
        ..candidate("absent", "Absent", "absent")
    };
    let sessions = discover(
        vec![
            candidate("sway", "Sway", "sway"),
            hidden,
            candidate("niri", "Niri", "niri"),
            // The same command again, an entry that is masked twice over, and one
            // whose programs are missing.
            candidate("sway-copy", "Another Sway", "sway"),
            candidate("gone", "Gone", "gone"),
            candidate("niri", "Later Niri", "niri2"),
            missing,
            // Of one name, the first comes first.
            candidate("twin-b", "Twin", "b"),
            candidate("twin-a", "Twin", "a"),
        ],
    );
    let names: Vec<(&str, &str)> = sessions
        .iter()
        .map(|session| (session.name.as_str(), session.command[0].as_str()))
        .collect();
    assert_eq!(
        names,
        [("Niri", "niri"), ("Sway", "sway"), ("Twin", "b"), ("Twin", "a")]
    );
}

#[test]
fn no_session_is_made_up() {
    assert!(discover(Vec::new()).is_empty());
    let missing = Candidate {
        available: false,
        ..candidate("sway", "Sway", "sway")
    };
    assert!(discover(vec![missing]).is_empty());
    // Capital letters come first.
    let sessions = discover(vec![
        candidate("niri", "niri", "niri"),
        candidate("sway", "Sway", "sway"),
    ]);
    assert_eq!(sessions[0].name, "Sway");
    assert_eq!(sessions[1].name, "niri");
}

#[test]
fn entries_are_looked_for_below_the_data_directories() {
    assert_eq!(
        session_directories(&vec![PathBuf::from("/b/share"), PathBuf::from("/a/share")]),
        [
            PathBuf::from("/b/share/wayland-sessions"),
            PathBuf::from("/a/share/wayland-sessions")
        ]
    );
    assert!(session_directories(&Vec::new()).is_empty());
    let sway = Session::sway(owned(&["sway", "--debug"]));
    assert_eq!(sway.desktop_names, ["sway"]);
}

// Text

#[test]
fn texts_are_taken_apart() {
    assert_eq!(text::split_on("a;;b", ';'), ["a", "", "b"]);
    assert_eq!(text::split_on("", ';'), [""]);
    assert_eq!(
        text::split_once("a=b=c", '='),
        Some(("a".to_owned(), "b=c".to_owned()))
    );
    assert_eq!(text::split_once("abc", '='), None);
    assert_eq!(text::trim("\u{a0} a b\t\n"), "a b");
    assert_eq!(text::trim(" \t"), "");
    assert_eq!(text::split_words(" a  b\u{2003}c "), ["a", "b", "c"]);
    assert!(text::comes_before("a", "ab"));
    assert!(!text::comes_before("b", "ab"));
    assert!(!text::comes_before("a", "a"));
    assert_eq!(text::write_number(0, 10), "0");
    assert_eq!(text::write_number(u64::MAX, 16), "ffffffffffffffff");
    assert_eq!(text::parse_u64("+42"), Some(42));
    assert_eq!(text::parse_u64("-0"), None);
    assert_eq!(text::parse_u64("18446744073709551616"), None);
}

// Power

#[test]
fn power_requests_have_a_label_and_a_method() {
    let all = [Action::Suspend, Action::Reboot, Action::PowerOff];
    assert_eq!(all.map(Action::label), ["Sleep", "Restart", "Shut Down"]);
    assert_eq!(all.map(Action::method), ["Suspend", "Reboot", "PowerOff"]);
    assert_eq!(
        PowerError::Bus("denied".to_owned()).message(),
        "logind request failed: denied"
    );
}

// Location

#[test]
fn city_request_uses_the_authorized_desktop_identity() {
    assert_eq!(DESKTOP_ID, "genkan-wallpaper");
    assert!(!DESKTOP_ID.contains(char::is_whitespace));
    assert_eq!(CITY_ACCURACY_LEVEL, 2, "GeoClue city accuracy is level 2");
}

fn location(latitude: f64, longitude: f64, accuracy: f64) -> Result<GeoLocation, GeoClueError> {
    GeoLocation::new(latitude.to_bits(), longitude.to_bits(), accuracy.to_bits())
}

#[test]
fn location_accepts_city_fixes_and_rejects_invalid_or_coarse_values() {
    let fix = location(37.7749, -122.4194, 5_000.0).unwrap();
    assert_eq!(f64::from_bits(fix.latitude_degrees()), 37.7749);
    assert_eq!(f64::from_bits(fix.longitude_degrees()), -122.4194);
    assert_eq!(f64::from_bits(fix.accuracy_bits), 5_000.0);

    let coarsest = f64::from_bits(MAX_CITY_ACCURACY_METERS);
    assert_eq!(coarsest, 100_000.0);
    assert_eq!(location(91.0, 0.0, 1.0), Err(GeoClueError::Invalid));
    assert_eq!(location(-91.0, 0.0, 1.0), Err(GeoClueError::Invalid));
    assert_eq!(location(0.0, 181.0, 1.0), Err(GeoClueError::Invalid));
    assert_eq!(location(f64::NAN, 0.0, 1.0), Err(GeoClueError::Invalid));
    assert_eq!(location(0.0, 0.0, -1.0), Err(GeoClueError::Invalid));
    assert_eq!(
        location(0.0, 0.0, f64::INFINITY),
        Err(GeoClueError::Invalid)
    );
    assert_eq!(
        location(0.0, 0.0, coarsest + 1.0),
        Err(GeoClueError::Coarse)
    );
    assert!(location(0.0, 0.0, coarsest).is_ok());
    assert!(location(-90.0, 180.0, -0.0).is_ok());
    assert_eq!(location(0.0, f64::NAN, 1.0), Err(GeoClueError::Invalid));
    assert_eq!(location(0.0, 0.0, f64::NAN), Err(GeoClueError::Invalid));
}

#[test]
fn error_categories_are_bounded_and_do_not_echo_service_text() {
    assert_eq!(GeoClueError::Unavailable.category(), "unavailable");
    assert_eq!(GeoClueError::Timeout.category(), "timeout");
    assert_eq!(GeoClueError::Denied.category(), "denied");
    assert_eq!(GeoClueError::Invalid.category(), "invalid");
    assert_eq!(GeoClueError::Coarse.category(), "coarse");
    for error in [
        GeoClueError::Unavailable,
        GeoClueError::Timeout,
        GeoClueError::Denied,
        GeoClueError::Invalid,
        GeoClueError::Coarse,
    ] {
        assert!(error.message().len() < 64);
        assert!(!error.message().contains("org.freedesktop"));
    }
}

#[test]
fn location_requests_go_step_by_step() {
    let mut step = RequestStep::Connect;
    let mut count = 0;
    while step != RequestStep::Stop {
        step = next_step(step);
        count += 1;
    }
    assert_eq!(count, 12);
    assert_eq!(
        step_failed(RequestStep::Connect),
        (None, Some(GeoClueError::Unavailable))
    );
    assert_eq!(
        step_failed(RequestStep::SetDesktopId),
        (None, Some(GeoClueError::Denied))
    );
    assert_eq!(
        step_failed(RequestStep::SetAccuracy),
        (None, Some(GeoClueError::Unavailable))
    );
    assert_eq!(
        step_failed(RequestStep::Start),
        (None, Some(GeoClueError::Denied))
    );
    assert_eq!(
        step_failed(RequestStep::Poll),
        (Some(RequestStep::Poll), None)
    );
    assert_eq!(
        step_failed(RequestStep::Latitude),
        (Some(RequestStep::Stop), Some(GeoClueError::Unavailable))
    );
    assert!(!has_location(None));
    assert!(!has_location(Some("/")));
    assert!(has_location(Some("/org/freedesktop/GeoClue2/Location/0")));
    assert_eq!(within_time(None), Err(GeoClueError::Timeout));
    assert_eq!(
        within_time(Some(Err(GeoClueError::Denied))),
        Err(GeoClueError::Denied)
    );
}

// Outputs

fn output(name: &str, position: (i32, i32), size: (i32, i32)) -> Output {
    Output {
        name: Some(name.to_owned()),
        position,
        size,
    }
}

#[test]
fn inherited_wayland_socket_is_reserved_for_the_gui_connection() {
    assert!(inherited_wayland_socket(Some(b"17")));
    assert!(!inherited_wayland_socket(None));
    assert!(!inherited_wayland_socket(Some(b"")));
}

#[test]
fn wayland_backpressure_is_recoverable() {
    assert_eq!(
        watch(false, WatchEvent::Flushed(Transfer::WouldBlock)),
        WatchAction::Prepare { writing: true }
    );
    assert_eq!(
        watch(true, WatchEvent::Read(Transfer::WouldBlock)),
        WatchAction::Dispatch
    );
    assert_eq!(
        watch(false, WatchEvent::Flushed(Transfer::Failed)),
        WatchAction::StopFlushing
    );
    assert_eq!(
        watch(false, WatchEvent::Read(Transfer::Failed)),
        WatchAction::StopReading
    );
}

#[test]
fn watchers_follow_the_connection() {
    let woken = |readable, closed, stop| WatchEvent::Woken {
        readable,
        closed,
        stop,
    };
    for (event, action) in [
        (
            WatchEvent::Dispatched {
                worked: false,
                changed: true,
            },
            WatchAction::Stop,
        ),
        (
            WatchEvent::Dispatched {
                worked: true,
                changed: true,
            },
            WatchAction::Publish,
        ),
        (
            WatchEvent::Dispatched {
                worked: true,
                changed: false,
            },
            WatchAction::Flush,
        ),
        (WatchEvent::Published, WatchAction::Flush),
        (
            WatchEvent::Flushed(Transfer::Done),
            WatchAction::Prepare { writing: false },
        ),
        (WatchEvent::Prepared(false), WatchAction::Dispatch),
        (
            WatchEvent::Prepared(true),
            WatchAction::Wait { writing: true },
        ),
        (WatchEvent::Interrupted, WatchAction::Dispatch),
        (WatchEvent::WaitFailed, WatchAction::Stop),
        (woken(true, true, true), WatchAction::Stop),
        (woken(true, true, false), WatchAction::Read),
        (woken(false, true, false), WatchAction::StopClosed),
        (woken(false, false, false), WatchAction::Dispatch),
        (WatchEvent::Read(Transfer::Done), WatchAction::Dispatch),
    ] {
        assert_eq!(watch(true, event), action);
    }
}

#[test]
fn region_uses_external_output_and_normalizes_negative_layout_coordinates() {
    let outputs = vec![
        output("eDP-1", (0, 0), (1920, 1080)),
        output("DP-1", (-2560, -360), (2560, 1440)),
    ];

    assert_eq!(
        select_region(&outputs, None),
        Some(Region {
            x: 0,
            y: 0,
            width: 2560,
            height: 1440,
            layout_width: 4480,
            layout_height: 1440,
        })
    );
}

#[test]
fn region_falls_back_to_internal_panel() {
    let outputs = vec![output("eDP-1", (0, 0), (1920, 1080))];
    assert_eq!(select_region(&outputs, Some("DP-1")).unwrap().width, 1920);
    assert_eq!(select_region(&Vec::new(), Some("DP-1")), None);
}

#[test]
fn topology_snapshots_reselect_after_hotplug_removal_and_rearrangement() {
    let internal = || output("eDP-1", (0, 0), (1920, 1080));
    assert_eq!(select_region(&vec![internal()], None).unwrap().x, 0);

    let docked = select_region(
        &vec![internal(), output("DP-1", (1920, 0), (2560, 1440))],
        None,
    )
    .unwrap();
    assert_eq!((docked.x, docked.width), (1920, 2560));

    let rearranged = select_region(
        &vec![internal(), output("DP-1", (-2560, -360), (2560, 1440))],
        None,
    )
    .unwrap();
    assert_eq!((rearranged.x, rearranged.y), (0, 0));

    let removed = select_region(&vec![internal()], None).unwrap();
    assert_eq!((removed.width, removed.layout_width), (1920, 1920));
}

#[test]
fn logical_geometry_handles_mixed_output_scales() {
    let outputs = vec![
        output("eDP-1", (0, 0), (1600, 1000)),
        output("DP-1", (1600, 0), (1920, 1080)),
    ];

    let selected = select_region(&outputs, None).unwrap();

    assert_eq!(selected.x, 1600);
    assert_eq!(selected.layout_width, 3520);
    assert_eq!(selected.height, 1080);
}

#[test]
fn changed_topology_publishes_only_new_layout_snapshots() {
    let internal = || output("eDP-1", (0, 0), (1920, 1080));
    let mut published = Published {
        region: select_region(&vec![internal()], None),
        sequence: 0,
    };

    assert!(!published.publish(select_region(&vec![internal()], None)));
    assert_eq!(published.sequence, 0);
    assert!(published.publish(select_region(
        &vec![internal(), output("DP-1", (1920, 0), (2560, 1440))],
        None
    )));
    assert_eq!(published.sequence, 1);
    assert_eq!(published.region.unwrap().x, 1920);
    published.sequence = u64::MAX;
    assert!(published.publish(None));
    assert_eq!(published.sequence, 0);
}

#[test]
fn outputs_are_selected_by_name_then_external_then_first() {
    let outputs = vec![
        output("eDP-1", (0, 0), (1, 1)),
        output("HDMI-A-1", (1, 0), (1, 1)),
        output("DP-1", (2, 0), (1, 1)),
    ];
    assert_eq!(select_output(&outputs, None), Some(1));
    assert_eq!(select_output(&outputs, Some("DP-1")), Some(2));
    assert_eq!(select_output(&outputs, Some("eDP-1")), Some(0));
    assert_eq!(select_output(&outputs, Some("VGA-1")), Some(1));
    let unnamed = vec![Output {
        name: None,
        ..output("", (0, 0), (1, 1))
    }];
    assert_eq!(select_output(&unnamed, None), Some(0));
    assert_eq!(select_output(&Vec::new(), None), None);
}

#[test]
fn screens_without_a_place_or_a_size_are_left_out() {
    let info = |position, size| OutputInfo {
        name: None,
        logical_position: position,
        logical_size: size,
    };
    let outputs = placed_outputs(vec![
        info(None, Some((1, 1))),
        info(Some((0, 0)), None),
        info(Some((0, 0)), Some((0, 1))),
        info(Some((0, 0)), Some((1, -1))),
        info(Some((3, 4)), Some((5, 6))),
    ]);
    assert_eq!(
        outputs,
        [Output {
            name: None,
            position: (3, 4),
            size: (5, 6)
        }]
    );
    assert!(layout_fits(&outputs, 0));
    let wide = vec![
        output("a", (i32::MIN, 0), (1, 1)),
        output("b", (i32::MAX, 0), (1, 1)),
    ];
    assert!(!layout_fits(&wide, 0));
}

// Arguments

#[test]
fn window_dimensions_are_bounded() {
    assert_eq!(parse_dimension("480"), Ok(480));
    assert_eq!(parse_dimension("320"), Ok(320));
    assert_eq!(parse_dimension("16384"), Ok(16_384));
    for value in ["200", "0", "16385", "4294967295"] {
        assert_eq!(parse_dimension(value), Err(ArgumentError::DimensionRange));
    }
    for value in ["", "wide", "-480", "4294967296", "480 "] {
        assert_eq!(parse_dimension(value), Err(ArgumentError::DimensionNumber));
    }
    assert_eq!(window_size(None, Some(600)), (1280, 600));
    assert_eq!(window_size(Some(480), None), (480, 800));
}

#[test]
fn ready_descriptors_are_not_the_standard_ones() {
    assert_eq!(parse_ready_fd("7"), Ok(7));
    assert_eq!(parse_ready_fd("2147483647"), Ok(i32::MAX));
    for value in ["2", "1", "0", "-1", "-2147483648"] {
        assert_eq!(parse_ready_fd(value), Err(ArgumentError::ReadyFdStandard));
    }
    for value in ["not-an-fd", "", "2147483648", "-2147483649"] {
        assert_eq!(parse_ready_fd(value), Err(ArgumentError::ReadyFdNumber));
    }
}

#[test]
fn wallpaper_override_accepts_only_an_existing_absolute_mov() {
    let path = PathBuf::from("/tmp/genkan-wallpaper.MOV");
    assert_eq!(parse_wallpaper_file(path.clone(), true), Ok(path));
    for (invalid, fault) in [
        ("wallpaper.mov", ArgumentError::WallpaperRelative),
        (
            "https://example.test/wallpaper.mov",
            ArgumentError::WallpaperRelative,
        ),
        ("/tmp/wallpaper.m3u8", ArgumentError::WallpaperExtension),
        ("videotestsrc ! appsink", ArgumentError::WallpaperRelative),
        ("/does/not/exist.mov", ArgumentError::WallpaperMissing),
    ] {
        assert_eq!(
            parse_wallpaper_file(PathBuf::from(invalid), false),
            Err(fault),
            "accepted {invalid}"
        );
    }
    assert_eq!(judge_wallpaper_file(true, Some("mOv"), true), None);
    assert_eq!(
        judge_wallpaper_file(true, None, true),
        Some(ArgumentError::WallpaperExtension)
    );
}

#[test]
fn identity_overrides_reject_empty_or_malformed_values() {
    assert!(parse_username("").is_err());
    assert!(parse_username("two users").is_err());
    assert!(parse_username("operator").is_ok());
    assert!(parse_display_name(" \n ").is_err());
    assert!(parse_display_name("\u{0600}\u{202e}\u{200b}").is_err());
    assert!(parse_username("user\u{0600}").is_err());
}

#[test]
fn identity_overrides_are_refused_with_a_reason() {
    assert_eq!(parse_username("alice").as_deref(), Ok("alice"));
    assert_eq!(parse_username(&"a".repeat(256)).as_deref(), Ok("a".repeat(256).as_str()));
    for refused in ["", "two users", "tab\t", "bell\u{7}", &"a".repeat(257)] {
        assert_eq!(parse_username(refused), Err(ArgumentError::Username), "{refused:?}");
    }
    assert_eq!(parse_display_name(" Operator\u{200e} ").as_deref(), Ok("Operator"));
    for refused in ["", " \n ", "\u{200b}"] {
        assert_eq!(parse_display_name(refused), Err(ArgumentError::DisplayName));
    }
    assert_eq!(
        ArgumentError::Username.message(),
        "username must be 1–256 characters without whitespace or control characters"
    );
    assert_eq!(
        ArgumentError::DisplayName.message(),
        "display name must contain visible characters"
    );
    assert_eq!(
        ArgumentError::ReadyFdStandard.message(),
        "ready descriptor must not replace stdin, stdout, or stderr"
    );
}

#[test]
fn motion_follows_the_flags() {
    assert!(animate_wallpaper(false, false, false));
    assert!(!animate_wallpaper(true, false, false));
    assert!(animate_wallpaper(true, false, true));
    assert!(!animate_wallpaper(false, true, false));
    let config = lock_config(Catalog::SequoiaNight, None, true, Some(7));
    assert_eq!(config.ready_fd, Some(7));
    assert!(!config.wallpaper.animate);
    assert_eq!(config.wallpaper.catalog, Catalog::SequoiaNight);
}

// Theme

const NORMAL_TEXT_CONTRAST: f32 = 4.5;
const NON_TEXT_CONTRAST: f32 = 3.0;

#[derive(Clone, Copy)]
enum BlendSpace {
    LinearSrgb,
    EncodedSrgb,
}

#[derive(Clone, Copy)]
struct Color {
    r: f32,
    g: f32,
    b: f32,
    a: f32,
}

const WHITE: Color = Color {
    r: 1.0,
    g: 1.0,
    b: 1.0,
    a: 1.0,
};

fn color(tint: Tint) -> Color {
    Color {
        r: f32::from(tint.red) / 255.0,
        g: f32::from(tint.green) / 255.0,
        b: f32::from(tint.blue) / 255.0,
        a: f32::from(tint.alpha) / 100.0,
    }
}

fn channel_luminance(channel: f32) -> f32 {
    if channel <= 0.04045 {
        channel / 12.92
    } else {
        ((channel + 0.055) / 1.055).powf(2.4)
    }
}

fn encode_channel(channel: f32) -> f32 {
    if channel <= 0.003_130_8 {
        channel * 12.92
    } else {
        1.055 * channel.powf(1.0 / 2.4) - 0.055
    }
}

fn composite(foreground: Color, background: Color, blend_space: BlendSpace) -> Color {
    let blend = |foreground_channel: f32, background_channel: f32| match blend_space {
        BlendSpace::LinearSrgb => encode_channel(
            channel_luminance(foreground_channel) * foreground.a
                + channel_luminance(background_channel) * (1.0 - foreground.a),
        ),
        BlendSpace::EncodedSrgb => {
            foreground_channel * foreground.a + background_channel * (1.0 - foreground.a)
        }
    };
    Color {
        r: blend(foreground.r, background.r),
        g: blend(foreground.g, background.g),
        b: blend(foreground.b, background.b),
        a: 1.0,
    }
}

fn luminance(color: Color) -> f32 {
    0.2126 * channel_luminance(color.r)
        + 0.7152 * channel_luminance(color.g)
        + 0.0722 * channel_luminance(color.b)
}

fn contrast(first: Color, second: Color) -> f32 {
    let (lighter, darker) = if luminance(first) > luminance(second) {
        (luminance(first), luminance(second))
    } else {
        (luminance(second), luminance(first))
    };
    (lighter + 0.05) / (darker + 0.05)
}

fn assert_text_contrast(foreground: Tint, surface: Color, blend_space: BlendSpace, label: &str) {
    let rendered = composite(color(foreground), surface, blend_space);
    assert!(
        contrast(rendered, surface) >= NORMAL_TEXT_CONTRAST,
        "{label} contrast was {}",
        contrast(rendered, surface)
    );
}

fn assert_boundary_contrast(
    border: Outline,
    wgpu_underlay: Color,
    tiny_skia_underlay: Color,
    adjacent: Color,
    blend_space: BlendSpace,
    label: &str,
) {
    let rendered = composite(
        color(border.color),
        match blend_space {
            BlendSpace::LinearSrgb => wgpu_underlay,
            BlendSpace::EncodedSrgb => tiny_skia_underlay,
        },
        blend_space,
    );
    assert!(
        contrast(rendered, adjacent) >= NON_TEXT_CONTRAST,
        "{label} contrast was {}",
        contrast(rendered, adjacent)
    );
}

fn assert_overlay_contrast(underlay: Color, blend_space: BlendSpace) {
    let menu = selector_menu();
    let menu_surface = composite(color(menu.background), underlay, blend_space);
    assert_boundary_contrast(
        menu.border,
        underlay,
        menu_surface,
        menu_surface,
        blend_space,
        "selector menu inner boundary",
    );
    assert_text_contrast(
        menu.text_color,
        menu_surface,
        blend_space,
        "selector menu text",
    );
    let selected_surface = composite(color(menu.selected_background), menu_surface, blend_space);
    assert_text_contrast(
        menu.selected_text_color,
        selected_surface,
        blend_space,
        "selected menu text",
    );

    let scrim = modal_scrim();
    let scrimmed = composite(
        color(scrim.background.expect("modal scrim")),
        underlay,
        blend_space,
    );
    let dialog_style = dialog();
    let dialog_surface = composite(
        color(dialog_style.background.expect("dialog material")),
        scrimmed,
        blend_space,
    );
    assert_text_contrast(primary_text(), dialog_surface, blend_space, "dialog text");
    assert_boundary_contrast(
        dialog_style.border,
        scrimmed,
        dialog_surface,
        dialog_surface,
        blend_space,
        "dialog inner boundary",
    );
    for status in [
        ButtonStatus::Active,
        ButtonStatus::Hovered,
        ButtonStatus::Pressed,
        ButtonStatus::Disabled,
    ] {
        for (label, style) in [
            ("dialog cancel button", dialog_button(status, false, false)),
            (
                "dialog destructive button",
                dialog_button(status, false, true),
            ),
        ] {
            let surface = composite(color(style.background), dialog_surface, blend_space);
            assert_text_contrast(style.text_color, surface, blend_space, label);
            assert_boundary_contrast(
                style.border,
                dialog_surface,
                surface,
                dialog_surface,
                blend_space,
                label,
            );
        }
    }
}

#[test]
fn overlays_meet_contrast_over_bright_page_content() {
    for blend_space in [BlendSpace::LinearSrgb, BlendSpace::EncodedSrgb] {
        assert_overlay_contrast(WHITE, blend_space);
    }
}

#[test]
fn scrollbar_thumbs_meet_component_contrast_in_every_state() {
    for status in [
        ScrollStatus::Active,
        ScrollStatus::Hovered(true, true),
        ScrollStatus::Dragged(true, true),
    ] {
        let style = scrollbar(status);
        for thumb in [style.horizontal, style.vertical] {
            assert!(
                contrast(color(thumb), color(style.track)) >= NON_TEXT_CONTRAST,
                "scrollbar thumb contrast was {}",
                contrast(color(thumb), color(style.track))
            );
        }
    }
}

#[test]
fn scroll_bars_light_up_one_by_one() {
    let resting = scrollbar(ScrollStatus::Active);
    let hovered = scrollbar(ScrollStatus::Hovered(true, false));
    let dragged = scrollbar(ScrollStatus::Dragged(false, true));
    assert_eq!(hovered.vertical, resting.vertical);
    assert_ne!(hovered.horizontal, resting.horizontal);
    assert_eq!(dragged.horizontal, resting.horizontal);
    assert_ne!(dragged.vertical, hovered.horizontal);
}

#[test]
fn account_tile_states_keep_a_distinct_visual_hierarchy() {
    let active = account_tile(ButtonStatus::Active, false);
    let disabled = account_tile(ButtonStatus::Disabled, false);

    assert!(active.border.color.alpha > disabled.border.color.alpha);
    assert_ne!(active.background, disabled.background);
}

fn emphasis() -> Tint {
    Tint {
        red: 255,
        green: 255,
        blue: 255,
        alpha: 95,
    }
}

#[test]
fn controls_share_corner_and_focus_treatment() {
    let active_input = input(false);
    let focused_input = input(true);
    let focused_account = account_tile(ButtonStatus::Active, true);
    let focused_dialog = dialog_button(ButtonStatus::Active, true, false);
    let opened_selector = selector(SelectorStatus::Opened, false);
    let dialog = dialog();
    let selector_menu = selector_menu();

    assert_eq!(active_input.border.radius, CONTROL_RADIUS);
    assert_eq!(
        primary_button(ButtonStatus::Active, false).border.radius,
        active_input.border.radius
    );
    assert_eq!(
        secondary_button(ButtonStatus::Active, false).border.radius,
        active_input.border.radius
    );
    assert_eq!(opened_selector.border.radius, active_input.border.radius);
    assert_eq!(dialog.border.radius, active_input.border.radius);
    assert_eq!(selector_menu.border.radius, active_input.border.radius);
    for border in [
        focused_input.border,
        focused_account.border,
        focused_dialog.border,
    ] {
        assert_eq!(border.width, EMPHASIS_WIDTH);
        assert_eq!(border.color, emphasis());
    }
}

#[test]
fn opened_selector_is_emphasized_without_claiming_keyboard_focus() {
    let closed = selector(SelectorStatus::Active, false);
    let opened = selector(SelectorStatus::Opened, false);

    assert_eq!(closed.border.width, 1);
    assert_eq!(opened.border.width, EMPHASIS_WIDTH);
    assert_eq!(opened.border.color, emphasis());
}

#[test]
fn logical_focus_is_visible_on_non_focusable_iced_controls() {
    let selector = selector(SelectorStatus::Active, true);
    let primary = primary_button(ButtonStatus::Active, true);
    let secondary = secondary_button(ButtonStatus::Active, true);

    for border in [selector.border, primary.border, secondary.border] {
        assert_eq!(border.width, EMPHASIS_WIDTH);
        assert_eq!(border.color, emphasis());
    }
}

#[test]
fn noninteractive_preview_badge_is_opaque() {
    assert_eq!(
        preview_badge().background,
        Some(Tint {
            red: 22,
            green: 27,
            blue: 56,
            alpha: 100
        })
    );
}

#[test]
fn text_fades_with_its_importance() {
    assert_eq!(primary_text().alpha, 100);
    assert_eq!(strong_secondary_text().alpha, 85);
    assert_eq!(secondary_text().alpha, 78);
    assert_eq!(muted_text().alpha, 68);
    assert_eq!(status_text(false), secondary_text());
    assert_eq!(
        status_text(true),
        Tint {
            red: 255,
            green: 171,
            blue: 171,
            alpha: 100
        }
    );
    assert_eq!(inactive_control().background.unwrap().alpha, 58);
    assert_eq!(avatar(50).border.radius, 50);
    assert_eq!(avatar(50).border.width, 2);
    assert_eq!(
        dialog_button(ButtonStatus::Active, false, true).background,
        Tint {
            red: 170,
            green: 42,
            blue: 52,
            alpha: 72
        }
    );
    assert_eq!(secondary_button(ButtonStatus::Pressed, false).background.alpha, 76);
    assert_eq!(selector(SelectorStatus::Hovered, false).border.color.alpha, 50);
}
