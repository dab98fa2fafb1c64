use std::cell::Cell;
use std::io::Read;
use std::path::PathBuf;

use bytes::Bytes;
use genkan::dynamic_wallpaper::clock::{CivilDate, CivilTime, ClockSnapshot};
use genkan::dynamic_wallpaper::heic::RgbaFrame as HeicFrame;
use genkan::dynamic_wallpaper::model::{
    Appearance, AppearancePreference, AppleProperty, ImageReference, Metadata, NormalizedTime,
    Number, PropertyValue, Schedule, SolarPoint, SolarPosition, TimePoint,
};
use genkan::dynamic_wallpaper::playback::{Generations, Playback as HeicPlayback};
use genkan::stable_file::OpenError;
use genkan::wallpaper::catalog::{
    appearance_argument, bounded_text, is_heic_extension, is_heic_path, open_error,
    pipeline_error, wallpaper_path_for_executable, worker_arguments, Catalog, Settings, Source,
    WorkerArgument, MAX_DIAGNOSTIC_CHARS,
};
use genkan::wallpaper::presentation::{Playing, Presentation, Received, Refresh, Shown};
use genkan::wallpaper::relay::{
    announce, expected_frame_bytes, take_relayed, HeicShared, HeicUpdate, Relay, RelayAction,
    FAILED_TAG, FRAME_TAG, HEADER_BYTES, MAX_FRAME_DIMENSION,
};
use genkan::wallpaper::video::{
    after_attempt, blend, breaks_pipeline, monitor, pack_rgba, pipeline_elements,
    same_dimensions, should_retry_with_software, take_message, takes_pad, transition_progress,
    AfterAttempt, AfterMessage, DecoderMode, Failure, Frame, Inlet, LoopFrameAction,
    LoopTransition, Message, PlaybackOutcome, Sampled, Shared, Stall, Update,
    AUTOMATIC_STARTUP_TIMEOUT, FRAME_STALL_TIMEOUT, LOOP_LEAD, OUTPUT_FRAMES_PER_SECOND,
    SEEK_STALL_TIMEOUT, SOFTWARE_STARTUP_TIMEOUT,
};
use genkan::wallpaper::worker::{
    apply_heic_schedule, finish_heic_decode, read_offset, suspend_clock_offset,
    timespec_nanoseconds, HeicDiagnostics, HeicWorker, OffsetReading, SuspendDetector,
    WorkerAction, WorkerEvent, POLL_INTERVAL, TRANSITION_INTERVAL,
};

fn seconds(value: u64) -> u128 {
    u128::from(value) * 1_000_000_000
}

fn millis(value: u64) -> u128 {
    u128::from(value) * 1_000_000
}

fn frame(value: u8, pts: u128) -> Frame {
    Frame::new(2, 1, vec![value; 8], Some(pts))
}

// Catalog

#[test]
fn executable_path_resolves_the_packaged_default() {
    assert_eq!(
        wallpaper_path_for_executable(
            &PathBuf::from("/nix/store/genkan/bin/.genkan-wrapped"),
            "tahoe-beach.mov"
        ),
        Some(PathBuf::from(
            "/nix/store/genkan/share/genkan/wallpapers/tahoe-beach.mov"
        ))
    );
    assert_eq!(
        wallpaper_path_for_executable(&PathBuf::from("/genkan"), "tahoe-beach.mov"),
        None
    );
}

const CATALOG: [Catalog; 4] = [
    Catalog::TahoeBeach,
    Catalog::SequoiaSunrise,
    Catalog::SequoiaMorning,
    Catalog::SequoiaNight,
];

#[test]
fn catalog_retains_each_verified_loop_transition() {
    let transitions = CATALOG
        .iter()
        .map(|catalog| {
            let wallpaper = catalog.spec();
            (
                catalog.name().to_owned(),
                wallpaper.install_name,
                wallpaper.poster_name,
                wallpaper.duration / 1_000,
                wallpaper.crossfade / 1_000_000,
            )
        })
        .collect::<Vec<_>>();
    assert_eq!(
        transitions,
        vec![
            (
                "tahoe-beach".into(),
                "tahoe-beach.mov",
                "tahoe-beach-poster.jpg",
                120_004_167,
                2_000
            ),
            (
                "sequoia-sunrise".into(),
                "sequoia-sunrise.mov",
                "sequoia-sunrise-poster.jpg",
                120_008_333,
                1_000
            ),
            (
                "sequoia-morning".into(),
                "sequoia-morning.mov",
                "sequoia-morning-poster.jpg",
                243_336_667,
                1_000
            ),
            (
                "sequoia-night".into(),
                "sequoia-night.mov",
                "sequoia-night-poster.jpg",
                291_603_333,
                2_000
            ),
        ]
    );
    assert_eq!(Catalog::default(), Catalog::TahoeBeach);
}

#[test]
fn heic_paths_are_detected_case_insensitively() {
    assert!(is_heic_path(&PathBuf::from("/tmp/wallpaper.heic")));
    assert!(is_heic_path(&PathBuf::from("/tmp/wallpaper.HEIF")));
    assert!(!is_heic_path(&PathBuf::from("/tmp/wallpaper.mov")));
    assert!(!is_heic_path(&PathBuf::from("/tmp/wallpaper")));
    assert!(is_heic_extension(Some("HeIc")));
    assert!(!is_heic_extension(Some("heics")));
    assert!(!is_heic_extension(None));
}

fn heic_settings(path: Option<&str>, animate: bool) -> Settings {
    Settings {
        catalog: Catalog::TahoeBeach,
        override_path: path.map(PathBuf::from),
        animate,
        reduced_motion: false,
        appearance: AppearancePreference::Automatic,
    }
}

#[test]
fn settings_decide_what_plays() {
    let settings = heic_settings(Some("/tmp/wallpaper.heic"), true);
    assert_eq!(
        settings.heic_path(),
        Some(&PathBuf::from("/tmp/wallpaper.heic"))
    );
    assert!(matches!(
        settings.source(),
        Source::Dynamic(path) if path == PathBuf::from("/tmp/wallpaper.heic")
    ));
    let settings = heic_settings(Some("/tmp/wallpaper.mov"), true);
    assert_eq!(settings.heic_path(), None);
    assert!(matches!(
        settings.source(),
        Source::Video(Some(path)) if path == PathBuf::from("/tmp/wallpaper.mov")
    ));
    assert!(matches!(
        heic_settings(None, true).source(),
        Source::Video(None)
    ));
    for path in [Some("/tmp/wallpaper.heic"), Some("/tmp/wallpaper.mov"), None] {
        assert!(matches!(heic_settings(path, false).source(), Source::Poster));
    }
}

#[test]
fn heic_worker_command_forwards_file_appearance_and_motion() {
    let path = "/home/alice/wallpaper.heic";
    let arguments = worker_arguments(AppearancePreference::Dark, true)
        .into_iter()
        .map(|argument| argument.word().unwrap_or(path))
        .collect::<Vec<_>>();
    assert_eq!(
        arguments,
        [
            "heic-worker",
            "--file",
            "/home/alice/wallpaper.heic",
            "--appearance",
            "dark",
            "--reduce-motion"
        ]
    );
    assert_eq!(
        worker_arguments(AppearancePreference::Light, false),
        vec![
            WorkerArgument::Worker,
            WorkerArgument::File,
            WorkerArgument::Path,
            WorkerArgument::AppearanceFlag,
            WorkerArgument::Appearance(AppearancePreference::Light),
        ]
    );
    assert_eq!(appearance_argument(AppearancePreference::Automatic), "automatic");
    assert_eq!(appearance_argument(AppearancePreference::Light), "light");
}

#[test]
fn diagnostics_are_single_line_and_bounded() {
    let input = format!("bad\n{}", "x".repeat(300));
    let output = bounded_text(&input);
    assert!(!output.contains('\n'));
    assert_eq!(output.chars().count(), MAX_DIAGNOSTIC_CHARS);
    assert!(output.ends_with('…'));
    assert_eq!(bounded_text("a\tb\u{85}c"), "a b c");
    assert_eq!(bounded_text(&"x".repeat(240)), "x".repeat(240));
}

#[test]
fn playback_diagnostics_describe_the_retained_background() {
    assert_eq!(
        pipeline_error("wallpaper stream failed"),
        "wallpaper stream failed; wallpaper playback stopped; retaining current background"
    );
    for (error, reason) in [
        (OpenError::Unavailable, "wallpaper file is unavailable"),
        (OpenError::Metadata, "wallpaper file metadata is unavailable"),
        (OpenError::NotRegular, "wallpaper path is not a regular file"),
        (
            OpenError::Reopen,
            "wallpaper file could not be opened for playback",
        ),
    ] {
        assert_eq!(open_error(error), pipeline_error(reason));
    }
}

// Presentation

#[test]
fn dynamic_heic_static_uses_only_the_poster() {
    let settings = heic_settings(Some("/tmp/wallpaper.heic"), false);
    assert!(matches!(settings.source(), Source::Poster));
    let state = Presentation::start(Playing::Nothing, true);
    assert_eq!(state.playing, Playing::Nothing);
    assert!(state.has_frame());
}

#[test]
fn heic_adoption_is_recorded_when_a_frame_is_consumed() {
    let mut state = Presentation::start(Playing::Dynamic, true);
    assert!(!state.adopted);
    assert_eq!(
        state.receive_latest(Some(Received::Frame)),
        (Refresh::Frame, true)
    );
    assert!(state.adopted, "consuming a HEIC frame records adoption");
    assert_eq!(
        state.receive_latest(Some(Received::Frame)),
        (Refresh::Frame, false)
    );

    let mut mov = Presentation::start(Playing::Video, true);
    assert_eq!(
        mov.receive_latest(Some(Received::Frame)),
        (Refresh::Frame, false)
    );
    assert!(!mov.adopted);
}

#[test]
fn receiving_failure_disposes_the_player() {
    let mut state = Presentation {
        playing: Playing::Video,
        has_poster: true,
        shown: Shown::Nothing,
        allocation_pending: false,
        adopted: false,
    };

    state.receive_latest(Some(Received::Failed));

    assert_eq!(state.playing, Playing::Nothing);
    assert!(state.has_frame());
    assert_eq!(state.shown, Shown::Poster);
}

#[test]
fn receiving_failure_preserves_the_last_displayed_frame() {
    let mut state = Presentation {
        playing: Playing::Video,
        has_poster: true,
        shown: Shown::Frame,
        allocation_pending: false,
        adopted: false,
    };

    state.receive_latest(Some(Received::Failed));

    assert_eq!(state.playing, Playing::Nothing);
    assert_eq!(state.shown, Shown::Frame);
}

#[test]
fn terminal_failure_during_allocation_preserves_the_displayed_frame() {
    let mut shared = Shared::new();
    let mut state = Presentation {
        playing: Playing::Video,
        has_poster: false,
        shown: Shown::Frame,
        allocation_pending: true,
        adopted: false,
    };
    assert!(shared.fail_once());

    assert_eq!(
        state.finish_allocation(true, shared.failed),
        (Refresh::Failed, false)
    );

    assert_eq!(state.playing, Playing::Nothing);
    assert!(!state.allocation_pending);
    assert_eq!(state.shown, Shown::Frame);
}

#[test]
fn iced_keeps_displaying_the_previous_frame_until_allocation_finishes() {
    let mut shared = Shared::new();
    let mut state = Presentation::start(Playing::Video, true);
    assert!(shared.publish_frame(frame(1, 0), 0));

    assert!(state.may_prepare());
    let received = shared.take_latest().map(|update| match update {
        Update::Frame(_) => Received::Frame,
        Update::Failed => Received::Failed,
    });
    assert!(
        state.prepare_latest(received),
        "the first decoded frame must begin allocation"
    );
    assert_eq!(state.shown, Shown::Poster);

    assert!(shared.publish_frame(frame(2, millis(33)), millis(33)));
    assert!(!state.may_prepare());
    assert!(!state.prepare_latest(Some(Received::Frame)));
    let Some(Update::Frame(latest)) = shared.pending.as_ref() else {
        panic!("the latest frame must remain queued during allocation");
    };
    assert_eq!(latest.bytes()[0], 2);

    assert_eq!(
        state.finish_allocation(true, shared.failed),
        (Refresh::Frame, false)
    );
    assert_eq!(state.shown, Shown::Frame);
    assert_eq!(
        state.finish_allocation(true, false),
        (Refresh::Unchanged, false)
    );
}

#[test]
fn a_refused_allocation_stops_playback() {
    let mut state = Presentation::start(Playing::Dynamic, false);
    assert!(!state.has_frame());
    assert!(state.prepare_latest(Some(Received::Frame)));
    assert_eq!(
        state.finish_allocation(false, false),
        (Refresh::Failed, false)
    );
    assert_eq!(state.playing, Playing::Nothing);
    assert!(!state.has_frame());
    assert!(!state.prepare_latest(None));
    assert_eq!(state.receive_latest(None), (Refresh::Unchanged, false));
}

// Relay

/// Reads the stream the way the supervisor does: as many bytes as are wanted at
/// a time, until it is over.
fn run_heic_reader<R: Read>(mut reader: R, shared: &mut HeicShared, stopping: &Cell<bool>) {
    let mut relay = Relay::Tag;
    loop {
        let mut bytes = vec![0u8; relay.wanted()];
        let read = reader.read_exact(&mut bytes).is_ok();
        match take_relayed(relay, read.then_some(bytes), stopping.get()) {
            RelayAction::Continue(next) => relay = next,
            RelayAction::Publish(frame) => {
                shared.emit(Some(frame));
                relay = Relay::Tag;
            }
            RelayAction::Finish { failed } => {
                if failed {
                    shared.fail();
                }
                return;
            }
        }
    }
}

fn relay_frame_bytes(width: u32, height: u32, pixels: &[u8]) -> Vec<u8> {
    let mut bytes = relay_header_bytes(FRAME_TAG, width, height, pixels.len() as u32);
    bytes.extend_from_slice(pixels);
    bytes
}

fn relay_header_bytes(tag: u8, width: u32, height: u32, length: u32) -> Vec<u8> {
    let mut bytes = vec![tag];
    bytes.extend_from_slice(&width.to_le_bytes());
    bytes.extend_from_slice(&height.to_le_bytes());
    bytes.extend_from_slice(&length.to_le_bytes());
    bytes
}

/// Asserts that the only published update is a terminal failure.
fn relay_fails_without_a_frame(bytes: Vec<u8>) {
    let mut shared = HeicShared::new();
    run_heic_reader(bytes.as_slice(), &mut shared, &Cell::new(false));
    assert!(shared.failed);
    assert_eq!(
        shared.sequence, 1,
        "a malformed stream must publish exactly one terminal failure"
    );
    assert!(matches!(shared.take_latest(), Some(HeicUpdate::Failed)));
}

/// Yields a fixed prefix and then fails every further read, recording that a
/// payload read was attempted at all.
struct PayloadProbe<'a> {
    prefix: &'a [u8],
    payload_reads: &'a Cell<usize>,
}

impl Read for PayloadProbe<'_> {
    fn read(&mut self, buffer: &mut [u8]) -> std::io::Result<usize> {
        if !self.prefix.is_empty() {
            return self.prefix.read(buffer);
        }
        self.payload_reads.set(self.payload_reads.get() + 1);
        Err(std::io::Error::new(
            std::io::ErrorKind::WouldBlock,
            "the relay read a payload it should have refused",
        ))
    }
}

#[test]
fn heic_relay_rejects_a_payload_above_the_byte_cap_without_reading_it() {
    // 8192 by 8192 RGBA is 256 MiB: above the 128 MiB ceiling without
    // overflowing, so only the byte ceiling can refuse it.
    assert!(expected_frame_bytes(8_192, 8_192).is_none());
    let payload_reads = Cell::new(0);
    let header = relay_header_bytes(FRAME_TAG, 8_192, 8_192, 256 * 1024 * 1024);
    let mut shared = HeicShared::new();
    run_heic_reader(
        PayloadProbe {
            prefix: &header,
            payload_reads: &payload_reads,
        },
        &mut shared,
        &Cell::new(false),
    );
    assert!(shared.failed);
    assert_eq!(
        payload_reads.get(),
        0,
        "an over-cap payload must be refused before it is read or reserved"
    );
}

#[test]
fn heic_relay_rejects_an_over_long_axis_before_allocating() {
    // Within the byte ceiling but past the decoder's per-axis limit.
    let width = MAX_FRAME_DIMENSION + 1;
    let height = 1;
    let mut reader =
        std::io::Cursor::new(relay_header_bytes(FRAME_TAG, width, height, width * 4));
    let mut shared = HeicShared::new();

    run_heic_reader(&mut reader, &mut shared, &Cell::new(false));

    assert!(shared.failed);
    assert_eq!(reader.position(), (1 + HEADER_BYTES) as u64);
    assert!(expected_frame_bytes(MAX_FRAME_DIMENSION, 1).is_some());
    assert!(expected_frame_bytes(MAX_FRAME_DIMENSION + 1, 1).is_none());
}

#[test]
fn heic_relay_rejects_an_unknown_tag() {
    relay_fails_without_a_frame(vec![b'X']);
}

#[test]
fn heic_relay_rejects_a_short_header() {
    let mut bytes = vec![FRAME_TAG];
    bytes.extend_from_slice(&[1, 2, 3]);
    relay_fails_without_a_frame(bytes);
}

#[test]
fn heic_relay_rejects_a_short_payload() {
    let mut bytes = relay_header_bytes(FRAME_TAG, 1, 1, 4);
    bytes.extend_from_slice(&[1, 2]);
    relay_fails_without_a_frame(bytes);
}

#[test]
fn heic_relay_rejects_a_length_mismatch() {
    // Two RGBA pixels are eight bytes, not four.
    relay_fails_without_a_frame(relay_header_bytes(FRAME_TAG, 2, 1, 4));
    // A shorter payload than the header's exact length is also a failure.
    let mut bytes = relay_header_bytes(FRAME_TAG, 1, 1, 8);
    bytes.extend_from_slice(&[1, 2, 3, 255]);
    relay_fails_without_a_frame(bytes);
}

#[test]
fn heic_relay_rejects_zero_dimensions() {
    relay_fails_without_a_frame(relay_header_bytes(FRAME_TAG, 0, 0, 0));
    relay_fails_without_a_frame(relay_header_bytes(FRAME_TAG, 1, 0, 0));
    relay_fails_without_a_frame(relay_header_bytes(FRAME_TAG, 0, 1, 0));
}

#[test]
fn heic_relay_rejects_a_frame_the_decoder_would_have_refused() {
    assert_eq!(expected_frame_bytes(3_840, 2_160), Some(3_840 * 2_160 * 4));
    assert!(expected_frame_bytes(0, 2_160).is_none());
    assert!(expected_frame_bytes(3_840, 0).is_none());
    assert!(expected_frame_bytes(16_385, 1).is_none());
    assert!(expected_frame_bytes(1, 16_385).is_none());
    assert!(expected_frame_bytes(u32::MAX, u32::MAX).is_none());
}

/// Delivers its bytes and then records cancellation and reports the end of the
/// stream, so that the end is no failure.
struct CancellingReader<'a> {
    bytes: &'a [u8],
    stopping: &'a Cell<bool>,
}

impl Read for CancellingReader<'_> {
    fn read(&mut self, buffer: &mut [u8]) -> std::io::Result<usize> {
        if !self.bytes.is_empty() {
            return self.bytes.read(buffer);
        }
        self.stopping.set(true);
        Ok(0)
    }
}

/// Delivers its bytes and records cancellation while returning the last of
/// them.
struct CancellingPayloadReader<'a> {
    bytes: &'a [u8],
    stopping: &'a Cell<bool>,
}

impl Read for CancellingPayloadReader<'_> {
    fn read(&mut self, buffer: &mut [u8]) -> std::io::Result<usize> {
        let count = self.bytes.read(buffer)?;
        if self.bytes.is_empty() {
            self.stopping.set(true);
        }
        Ok(count)
    }
}

/// Records cancellation where nothing is left to read.
struct StoppingReader<'a> {
    bytes: &'a [u8],
    stopping: &'a Cell<bool>,
}

impl Read for StoppingReader<'_> {
    fn read(&mut self, buffer: &mut [u8]) -> std::io::Result<usize> {
        if self.bytes.is_empty() {
            self.stopping.set(true);
        }
        self.bytes.read(buffer)
    }
}

/// Never returns more than one byte per call.
struct OneByteReader<'a> {
    bytes: &'a [u8],
}

impl Read for OneByteReader<'_> {
    fn read(&mut self, buffer: &mut [u8]) -> std::io::Result<usize> {
        if buffer.is_empty() {
            return Ok(0);
        }
        self.bytes.read(&mut buffer[..1])
    }
}

#[test]
fn heic_relay_assembles_a_frame_from_single_byte_reads() {
    let bytes = relay_frame_bytes(2, 1, &[1, 2, 3, 255, 4, 5, 6, 255]);
    // The consumer goes away once the frame is there, and the stream ends then.
    let stopping = Cell::new(false);
    let mut shared = HeicShared::new();
    run_heic_reader(
        StoppingReader {
            bytes: &bytes,
            stopping: &stopping,
        },
        &mut shared,
        &stopping,
    );
    let Some(HeicUpdate::Frame(frame)) = shared.take_latest() else {
        panic!("the frame must be adopted");
    };
    assert_eq!((frame.width, frame.height), (2, 1));
    assert_eq!(frame.pixels, [1, 2, 3, 255, 4, 5, 6, 255]);
    assert!(stopping.get());
    assert!(!shared.failed);

    // The same stream delivered one byte per read must frame identically.
    let mut shared = HeicShared::new();
    run_heic_reader(OneByteReader { bytes: &bytes }, &mut shared, &Cell::new(false));
    assert_eq!(
        shared.sequence, 2,
        "the fragmented frame must be adopted before the EOF failure"
    );
    assert!(shared.failed);
}

#[test]
fn heic_relay_treats_eof_after_a_frame_as_a_terminal_failure() {
    let bytes = relay_frame_bytes(2, 1, &[1, 2, 3, 255, 4, 5, 6, 255]);
    let mut shared = HeicShared::new();
    run_heic_reader(bytes.as_slice(), &mut shared, &Cell::new(false));
    assert!(shared.failed);
    assert!(matches!(shared.take_latest(), Some(HeicUpdate::Failed)));
    assert!(shared.take_latest().is_none());
}

#[test]
fn heic_relay_cancellation_wins_over_a_read_frame() {
    let stopping = Cell::new(false);
    let bytes = relay_frame_bytes(2, 1, &[1, 2, 3, 255, 4, 5, 6, 255]);
    let mut shared = HeicShared::new();
    run_heic_reader(
        CancellingPayloadReader {
            bytes: &bytes,
            stopping: &stopping,
        },
        &mut shared,
        &stopping,
    );
    assert!(stopping.get());
    assert_eq!(shared.sequence, 0);
    assert!(shared.pending.is_none());
    assert!(!shared.failed);
}

#[test]
fn heic_relay_cancellation_mid_payload_is_not_a_failure() {
    let stopping = Cell::new(false);
    let header = relay_header_bytes(FRAME_TAG, 2, 1, 8);
    let mut shared = HeicShared::new();
    run_heic_reader(
        CancellingReader {
            bytes: &header,
            stopping: &stopping,
        },
        &mut shared,
        &stopping,
    );
    assert!(stopping.get());
    assert!(!shared.failed);
    assert!(shared.pending.is_none());
}

#[test]
fn heic_relay_adopts_a_framed_worker_frame() {
    let stopping = Cell::new(false);
    let bytes = relay_frame_bytes(2, 1, &[1, 2, 3, 255, 4, 5, 6, 255]);
    let mut shared = HeicShared::new();
    run_heic_reader(
        CancellingReader {
            bytes: &bytes,
            stopping: &stopping,
        },
        &mut shared,
        &stopping,
    );
    let Some(HeicUpdate::Frame(frame)) = shared.take_latest() else {
        panic!("the frame must be handed over");
    };
    assert_eq!((frame.width, frame.height), (2, 1));
    assert_eq!(frame.pixels, [1, 2, 3, 255, 4, 5, 6, 255]);
    assert!(!shared.failed);
}

#[test]
fn heic_relay_reports_a_worker_failure_tag() {
    let mut shared = HeicShared::new();
    run_heic_reader([FAILED_TAG].as_slice(), &mut shared, &Cell::new(false));
    assert!(shared.failed);
    assert!(matches!(shared.take_latest(), Some(HeicUpdate::Failed)));

    // The worker's own word counts even where the consumer is going away.
    let mut shared = HeicShared::new();
    run_heic_reader([FAILED_TAG].as_slice(), &mut shared, &Cell::new(true));
    assert!(shared.failed);
}

#[test]
fn heic_relay_treats_a_truncated_worker_as_a_decorative_failure() {
    let mut bytes = vec![FRAME_TAG];
    bytes.extend_from_slice(&1u32.to_le_bytes());
    bytes.extend_from_slice(&1u32.to_le_bytes());
    bytes.extend_from_slice(&4u32.to_le_bytes());
    bytes.extend_from_slice(&[1, 2]);
    let mut shared = HeicShared::new();
    run_heic_reader(bytes.as_slice(), &mut shared, &Cell::new(false));
    assert!(shared.failed);
    assert!(matches!(shared.take_latest(), Some(HeicUpdate::Failed)));
}

#[test]
fn heic_relay_rejects_an_oversized_frame_without_allocating() {
    let mut bytes = vec![FRAME_TAG];
    bytes.extend_from_slice(&u32::MAX.to_le_bytes());
    bytes.extend_from_slice(&u32::MAX.to_le_bytes());
    bytes.extend_from_slice(&u32::MAX.to_le_bytes());
    let mut shared = HeicShared::new();
    run_heic_reader(bytes.as_slice(), &mut shared, &Cell::new(false));
    assert!(shared.failed);
}

#[test]
fn process_sink_emits_a_length_checked_frame() {
    let written = heic_frame(7);
    let mut output = announce(&written).unwrap();
    output.extend_from_slice(&written.pixels);
    assert_eq!(output[0], FRAME_TAG);
    assert_eq!(output, relay_frame_bytes(2, 1, &written.pixels));

    let stopping = Cell::new(false);
    let mut shared = HeicShared::new();
    run_heic_reader(
        CancellingReader {
            bytes: &output,
            stopping: &stopping,
        },
        &mut shared,
        &stopping,
    );
    let Some(HeicUpdate::Frame(frame)) = shared.take_latest() else {
        panic!("the frame must be handed over");
    };
    assert_eq!(frame.pixels[0], 7);
}

#[test]
fn refused_frame_allocation_retains_the_previous_frame() {
    let mut shared = HeicShared::new();
    assert!(shared.emit(Some(HeicFrame {
        width: 1,
        height: 1,
        pixels: vec![1, 2, 3, 4],
    })));
    let sequence = shared.sequence;

    // A refused handoff allocation must not replace the pending frame.
    assert!(!shared.emit(None));
    let Some(HeicUpdate::Frame(frame)) = shared.pending.as_ref() else {
        panic!("valid pending frame must remain");
    };
    assert_eq!(frame.pixels[0], 1);
    assert_eq!(shared.sequence, sequence);
}

#[test]
fn relay_failures_are_the_last_word() {
    let mut shared = HeicShared::new();
    assert!(shared.fail());
    assert!(!shared.fail());
    assert!(!shared.emit(Some(heic_frame(1))));
    assert_eq!(shared.sequence, 1);
    assert!(matches!(shared.take_latest(), Some(HeicUpdate::Failed)));
}

// Scheduling and decoding

fn clock_snapshot(hour: u8, minute: u8, second: u8) -> ClockSnapshot {
    ClockSnapshot::new(
        CivilDate::new(2026, 9, 10).unwrap(),
        CivilTime::new(hour, minute, second).unwrap(),
        0,
    )
    .unwrap()
}

fn image(position: usize) -> ImageReference {
    ImageReference::from_position(position)
}

fn point(position: usize, time: f64) -> TimePoint {
    TimePoint {
        image: image(position),
        time: NormalizedTime::new(Number::Real(time.to_bits())).unwrap(),
    }
}

fn time_metadata(points: Vec<TimePoint>) -> Metadata {
    let mut metadata = Metadata::default();
    metadata
        .insert(
            AppleProperty::Time,
            PropertyValue::Time(Schedule::new(points, None).unwrap()),
        )
        .unwrap();
    metadata
}

fn heic_frame(value: u8) -> HeicFrame {
    let pixels = (0..2).flat_map(|_| [value, value, value, 255]).collect();
    HeicFrame {
        width: 2,
        height: 1,
        pixels,
    }
}

#[test]
fn discontinuity_snaps_a_dissolve_and_reports_a_publish() {
    let mut generations = Generations::new();
    let metadata = time_metadata(vec![point(0, 0.0), point(1, 60.0 / 86_400.0)]);
    let mut playback = HeicPlayback::new(
        &metadata,
        image(0),
        AppearancePreference::Automatic,
        clock_snapshot(0, 0, 0),
        0,
        false,
        &mut generations,
    );
    let request = playback.take_decode_request().unwrap();
    playback.complete_decode(request, Ok(heic_frame(0)), 0, &mut generations);
    playback.synchronize(clock_snapshot(0, 1, 0), seconds(60), &mut generations);
    let request = playback.take_decode_request().unwrap();
    playback.complete_decode(request, Ok(heic_frame(200)), millis(60_500), &mut generations);
    assert!(playback.is_transitioning());

    assert!(
        apply_heic_schedule(
            &mut playback,
            clock_snapshot(0, 1, 1),
            seconds(61),
            true,
            &mut generations,
        ),
        "a discontinuity snap must request a publish"
    );
    assert!(!playback.is_transitioning());
}

#[test]
fn suspend_detector_catches_subsecond_gaps() {
    let mut detector = SuspendDetector::new(Some(0));
    // 800 ms is below the playback's one-second clock tolerance but must be
    // treated as a suspend.
    assert!(detector.observe(millis(800)));
    assert!(!detector.observe(millis(805)));
    assert!(detector.observe(millis(1_605)));
    // The same offset again is no new suspend, and neither is a missing one.
    assert!(!detector.observe(millis(1_605)));
    assert!(!detector.sample(None));
    assert!(!SuspendDetector::new(None).observe(millis(800)));
}

#[test]
fn clock_offsets_come_from_the_first_exact_reading() {
    assert_eq!(timespec_nanoseconds(2, 5), 2_000_000_005);
    assert_eq!(timespec_nanoseconds(-2, 5), 5);
    assert_eq!(timespec_nanoseconds(2, 1_500_000_000), 3_500_000_000);
    assert_eq!(timespec_nanoseconds(0, 0x1_0000_0007), 7);
    assert_eq!(timespec_nanoseconds(2, -5), 2_000_000_000);
    assert_eq!(
        read_offset(millis(100), millis(500), millis(110)),
        OffsetReading::Offset(Some(millis(395)))
    );
    assert_eq!(
        read_offset(millis(100), millis(500), millis(111)),
        OffsetReading::Imprecise
    );
    assert_eq!(
        read_offset(millis(100), millis(50), millis(100)),
        OffsetReading::Offset(Some(0))
    );
    assert_eq!(
        read_offset(u128::MAX, 0, u128::MAX),
        OffsetReading::Offset(None)
    );
    let slow = (0, 0, millis(11));
    let exact = (millis(1), millis(3), millis(1));
    assert_eq!(suspend_clock_offset(&vec![slow, exact]), Some(millis(2)));
    assert_eq!(suspend_clock_offset(&vec![slow, slow, exact]), Some(millis(2)));
    assert_eq!(suspend_clock_offset(&vec![slow, slow, slow, exact]), None);
}

fn started_playback(
    metadata: &Metadata,
    generations: &mut Generations,
) -> HeicPlayback {
    let mut playback = HeicPlayback::new(
        metadata,
        image(0),
        AppearancePreference::Automatic,
        clock_snapshot(0, 0, 0),
        0,
        false,
        generations,
    );
    let initial = playback.take_decode_request().unwrap();
    playback.complete_decode(initial, Ok(heic_frame(10)), 0, generations);
    playback
}

#[test]
fn stale_decode_after_reselection_is_ignored() {
    let mut generations = Generations::new();
    let metadata = time_metadata(vec![
        point(0, 0.0),
        point(1, 60.0 / 86_400.0),
        point(2, 120.0 / 86_400.0),
    ]);
    let mut playback = started_playback(&metadata, &mut generations);

    playback.synchronize(clock_snapshot(0, 1, 0), seconds(60), &mut generations);
    let stale = playback.take_decode_request().unwrap();
    assert_eq!(stale.image, image(1));

    // The schedule crosses a second boundary and reselects image 2 before the
    // stale result is completed, so it must be rejected without overwriting the
    // displayed frame.
    let mut diagnostics = HeicDiagnostics::new();
    assert_eq!(
        finish_heic_decode(
            &mut playback,
            stale,
            Ok(heic_frame(200)),
            clock_snapshot(0, 2, 0),
            seconds(120),
            false,
            &mut diagnostics,
            &mut generations,
        ),
        (false, false)
    );
    assert_eq!(playback.selected(), image(2));
    assert_eq!(playback.frame().unwrap().pixels[0], 10);
}

#[test]
fn decode_failure_retains_the_last_frame() {
    let mut generations = Generations::new();
    let metadata = time_metadata(vec![point(0, 0.0), point(1, 60.0 / 86_400.0)]);
    let mut playback = started_playback(&metadata, &mut generations);

    playback.synchronize(clock_snapshot(0, 1, 0), seconds(60), &mut generations);
    let request = playback.take_decode_request().unwrap();
    let mut diagnostics = HeicDiagnostics::new();
    assert_eq!(
        finish_heic_decode(
            &mut playback,
            request,
            Err(()),
            clock_snapshot(0, 1, 0),
            seconds(60),
            false,
            &mut diagnostics,
            &mut generations,
        ),
        (false, true)
    );
    assert_eq!(playback.frame().unwrap().pixels[0], 10);
    assert!(diagnostics.decode_failure_reported);
}

#[test]
fn late_decode_after_the_dissolve_window_switches_immediately() {
    let mut generations = Generations::new();
    let metadata = time_metadata(vec![point(0, 0.0), point(1, 60.0 / 86_400.0)]);
    let mut playback = started_playback(&metadata, &mut generations);
    playback.synchronize(clock_snapshot(0, 1, 0), seconds(60), &mut generations);
    let request = playback.take_decode_request().unwrap();

    // The decode finished five seconds after its boundary, past the two-second
    // dissolve window, so it must switch immediately rather than starting an
    // expired dissolve.
    let mut diagnostics = HeicDiagnostics::new();
    assert_eq!(
        finish_heic_decode(
            &mut playback,
            request,
            Ok(heic_frame(200)),
            clock_snapshot(0, 1, 5),
            seconds(65),
            false,
            &mut diagnostics,
            &mut generations,
        ),
        (true, false)
    );
    assert!(!playback.is_transitioning());
    assert_eq!(playback.frame().unwrap().pixels[0], 200);
}

#[test]
fn heic_playback_never_selects_a_solar_schedule() {
    let zero = Number::Real(0.0f64.to_bits());
    let solar = Schedule::new(
        vec![SolarPoint {
            image: image(2),
            position: SolarPosition::new(zero, zero).unwrap(),
        }],
        Some(Appearance {
            light: image(0),
            dark: image(1),
        }),
    )
    .unwrap();
    let mut metadata = Metadata::default();
    metadata
        .insert(AppleProperty::Solar, PropertyValue::Solar(solar))
        .unwrap();
    let playback = HeicPlayback::new(
        &metadata,
        image(9),
        AppearancePreference::Automatic,
        clock_snapshot(12, 0, 0),
        0,
        false,
        &mut Generations::new(),
    );
    // Solar is disabled for login and lock, so the fallback appearance's light
    // image is selected instead of the solar point's image 2.
    assert_eq!(playback.selected(), image(0));
}

// The worker's loop

/// Red, green, and blue frames for images 0, 1, and 2.
fn painted(image: ImageReference) -> HeicFrame {
    let mut pixel = [0, 0, 0, 255];
    pixel[image.position()] = 255;
    HeicFrame {
        width: 8,
        height: 8,
        pixels: pixel.repeat(64),
    }
}

fn worker_metadata() -> Metadata {
    time_metadata(vec![point(0, 0.0), point(1, 0.25), point(2, 0.5)])
}

/// Runs rounds of the worker at one moment until a frame is published.
fn published_at(
    worker: &mut HeicWorker,
    generations: &mut Generations,
    mut action: WorkerAction,
    clock: ClockSnapshot,
    monotonic: u128,
) -> (HeicFrame, WorkerAction) {
    let offset = Some(0);
    for _ in 0..100 {
        let event = match action {
            WorkerAction::SampleTime => WorkerEvent::Time {
                clock: Some(clock),
                monotonic,
                offset,
            },
            WorkerAction::Decode(request) => WorkerEvent::Decoded {
                result: Ok(painted(request.image)),
                clock: Some(clock),
                monotonic,
                offset,
            },
            WorkerAction::Sleep(_) => WorkerEvent::Woke,
            WorkerAction::Publish => {
                let shown = worker.frame().unwrap();
                let frame = HeicFrame {
                    width: shown.width,
                    height: shown.height,
                    pixels: shown.pixels.clone(),
                };
                let (next, report) = worker.step(WorkerEvent::Published(true), generations);
                assert!(!report);
                return (frame, next);
            }
            WorkerAction::Stop => panic!("the worker must not stop"),
        };
        let (next, report) = worker.step(event, generations);
        assert!(!report);
        action = next;
    }
    panic!("the worker never published a frame");
}

fn worker_at(
    clock: ClockSnapshot,
    reduced_motion: bool,
    generations: &mut Generations,
) -> HeicWorker {
    HeicWorker::new(
        &worker_metadata(),
        image(0),
        AppearancePreference::Automatic,
        clock,
        0,
        reduced_motion,
        Some(0),
        generations,
    )
}

#[test]
fn dynamic_heic_selects_the_scheduled_variant() {
    let clock = clock_snapshot(13, 0, 0);
    let mut generations = Generations::new();
    let mut worker = worker_at(clock, true, &mut generations);
    let (frame, _) = published_at(&mut worker, &mut generations, WorkerAction::SampleTime, clock, 0);
    // At 13:00, t = 0.5417 selects the point at 0.5, image 2 (blue).
    assert!(
        frame.pixels[2] > 200 && frame.pixels[0] < 40 && frame.pixels[1] < 40,
        "unexpected scheduled frame {:?}",
        &frame.pixels[..4]
    );
}

#[test]
fn dynamic_heic_transitions_at_an_ordinary_boundary() {
    let midnight = clock_snapshot(0, 0, 0);
    let mut generations = Generations::new();
    let mut worker = worker_at(midnight, true, &mut generations);
    // 00:00 selects the point at 0.0, image 0 (red).
    let (first, next) = published_at(&mut worker, &mut generations, WorkerAction::SampleTime, midnight, 0);
    assert!(
        first.pixels[0] > 200 && first.pixels[1] < 40 && first.pixels[2] < 40,
        "unexpected initial frame {:?}",
        &first.pixels[..4]
    );
    assert_eq!(next, WorkerAction::Sleep(POLL_INTERVAL));
    // 06:00 crosses the boundary to the point at 0.25, image 1 (green).
    let (second, _) = published_at(
        &mut worker,
        &mut generations,
        next,
        clock_snapshot(6, 0, 0),
        seconds(6 * 3_600),
    );
    assert!(
        second.pixels[1] > 200 && second.pixels[0] < 40 && second.pixels[2] < 40,
        "unexpected boundary frame {:?}",
        &second.pixels[..4]
    );
}

#[test]
fn dynamic_heic_dissolves_at_an_ordinary_boundary() {
    let midnight = clock_snapshot(0, 0, 0);
    let mut generations = Generations::new();
    let mut worker = worker_at(midnight, false, &mut generations);
    let (first, next) = published_at(&mut worker, &mut generations, WorkerAction::SampleTime, midnight, 0);
    assert!(
        first.pixels[0] > 200 && first.pixels[1] < 40 && first.pixels[2] < 40,
        "unexpected initial frame {:?}",
        &first.pixels[..4]
    );
    // One second past the boundary with a coherent monotonic sample: the
    // two-second dissolve is halfway between red and green.
    let (blended, next) = published_at(
        &mut worker,
        &mut generations,
        next,
        clock_snapshot(6, 0, 1),
        seconds(6 * 3_600 + 1),
    );
    assert!(
        (60..=200).contains(&blended.pixels[0])
            && (60..=200).contains(&blended.pixels[1])
            && blended.pixels[2] < 40,
        "expected a red/green dissolve blend, got {:?}",
        &blended.pixels[..4]
    );
    assert_eq!(next, WorkerAction::Sleep(TRANSITION_INTERVAL));
}

#[test]
fn a_worker_stops_with_its_consumer_and_reports_a_failure_once() {
    let midnight = clock_snapshot(0, 0, 0);
    let time = |clock, monotonic, offset| WorkerEvent::Time {
        clock,
        monotonic,
        offset,
    };
    let failed = |monotonic| WorkerEvent::Decoded {
        result: Err(()),
        clock: None,
        monotonic,
        offset: None,
    };
    let mut generations = Generations::new();
    let mut worker = HeicWorker::new(
        &worker_metadata(),
        image(2),
        AppearancePreference::Automatic,
        midnight,
        0,
        false,
        None,
        &mut generations,
    );
    let (action, _) = worker.step(time(Some(midnight), 0, None), &mut generations);
    assert!(matches!(action, WorkerAction::Decode(request) if request.image == image(0)));
    let (action, report) = worker.step(failed(0), &mut generations);
    assert_eq!((action, report), (WorkerAction::Sleep(POLL_INTERVAL), true));
    assert_eq!(
        worker.step(WorkerEvent::Woke, &mut generations),
        (WorkerAction::SampleTime, false)
    );
    // The primary image stands in, and its failure is not reported again.
    let (action, _) = worker.step(time(None, 1, Some(0)), &mut generations);
    assert!(matches!(action, WorkerAction::Decode(request) if request.image == image(2)));
    let (action, report) = worker.step(failed(1), &mut generations);
    assert_eq!((action, report), (WorkerAction::Sleep(POLL_INTERVAL), false));
    assert!(worker.frame().is_none());

    assert_eq!(
        worker.step(WorkerEvent::Cancelled, &mut generations),
        (WorkerAction::Stop, false)
    );
    let mut worker = worker_at(midnight, false, &mut generations);
    let (action, _) = worker.step(time(Some(midnight), 0, None), &mut generations);
    let WorkerAction::Decode(request) = action else {
        panic!("an image must be asked for");
    };
    // One source numbers the requests of both workers.
    assert_eq!(request.generation + 1, generations.next);
    assert!(request.generation > 1);
    let decoded = WorkerEvent::Decoded {
        result: Ok(painted(request.image)),
        clock: Some(midnight),
        monotonic: 0,
        offset: None,
    };
    let (action, _) = worker.step(decoded, &mut generations);
    assert_eq!(action, WorkerAction::Publish);
    assert_eq!(
        worker.step(WorkerEvent::Published(false), &mut generations),
        (WorkerAction::Stop, false)
    );
}

// Video

#[test]
fn padded_rgba_rows_are_tightly_packed() {
    let source = [1, 2, 3, 4, 0, 0, 5, 6, 7, 8, 0, 0];
    assert_eq!(
        pack_rgba(&source, 1, 2, 6),
        Some(Bytes::from_static(&[1, 2, 3, 4, 5, 6, 7, 8]))
    );
    assert_eq!(pack_rgba(&source[..5], 1, 1, 6), None);
    assert_eq!(pack_rgba(&source, 2, 1, 6), None);
    assert_eq!(
        pack_rgba(&source, 1, 3, 4),
        Some(Bytes::copy_from_slice(&source))
    );
    assert_eq!(pack_rgba(&source, 1, 1, -4), None);
}

#[test]
fn crossfade_holds_then_dissolves_to_the_opening_frame() {
    let held = frame(0, 0);
    for (weight, expected) in [(0, 0), (128, 100), (256, 200)] {
        let opening = frame(200, seconds(1));
        assert!(same_dimensions(&held, &opening));
        assert_eq!(blend(&held, opening, weight).bytes()[0], expected);
    }
    assert!(!same_dimensions(&held, &Frame::new(1, 1, vec![0; 8], None)));
}

#[test]
fn publishing_replaces_an_unconsumed_frame() {
    let mut shared = Shared::new();
    shared.publish_frame(frame(1, 0), 0);
    shared.publish_frame(frame(2, millis(33)), millis(33));

    let Some(Update::Frame(latest)) = shared.pending.as_ref() else {
        panic!("latest frame must remain pending");
    };
    assert_eq!(latest.bytes()[0], 2);
    assert_eq!(shared.sequence, 2);
}

#[test]
fn late_terminal_frames_do_not_cancel_loop_transition() {
    let mut shared = Shared::new();
    let duration = seconds(10);
    let terminal = frame(20, duration - LOOP_LEAD);
    let late_terminal = frame(40, duration);
    let opening = frame(100, 0);

    assert_eq!(
        shared.loop_frame_action(terminal.pts, duration),
        LoopFrameAction::Request
    );
    assert!(shared.publish_frame(terminal, 0));
    shared.begin_loop_at(1_000_000_000, 0);
    assert_eq!(
        shared.loop_frame_action(late_terminal.pts, duration),
        LoopFrameAction::Drop
    );
    assert!(shared.transition.is_some());
    assert_eq!(
        shared.loop_frame_action(None, duration),
        LoopFrameAction::Drop
    );
    assert!(shared.awaiting_opening_since.is_some());

    assert_eq!(
        shared.loop_frame_action(opening.pts, duration),
        LoopFrameAction::Publish
    );
    assert!(shared.publish_frame(opening, 0));
    assert!(shared.transition.is_some());
    assert_eq!(shared.last_frame.as_ref().unwrap().bytes()[0], 20);
}

#[test]
fn an_attempt_starts_with_no_loop_asked_for() {
    let mut shared = Shared::new();
    let duration = seconds(10);
    assert!(shared.publish_frame(frame(20, duration), 0));
    assert_eq!(
        shared.loop_frame_action(Some(duration), duration),
        LoopFrameAction::Request
    );
    assert_eq!(
        shared.loop_frame_action(None, duration),
        LoopFrameAction::Drop
    );

    shared.begin_attempt();

    assert!(shared.last_frame.is_some());
    assert_eq!(
        shared.loop_frame_action(None, duration),
        LoopFrameAction::Publish
    );
    assert_eq!(
        shared.loop_frame_action(Some(duration), duration),
        LoopFrameAction::Request
    );
}

#[test]
fn terminal_failure_cannot_be_overwritten_by_a_frame() {
    let mut shared = Shared::new();

    assert!(shared.fail_once());
    assert!(!shared.publish_frame(frame(1, 0), 0));

    assert!(matches!(shared.pending, Some(Update::Failed)));
    assert_eq!(shared.sequence, 1);
    assert!(!shared.fail_once());
}

#[test]
fn playback_deadlines_cover_startup_frames_and_loop_seek() {
    let now = seconds(1_000);
    let startup = now - AUTOMATIC_STARTUP_TIMEOUT;
    let mut state = Shared::new();

    assert_eq!(
        state.playback_stall(startup, AUTOMATIC_STARTUP_TIMEOUT, now),
        Some(Stall::Startup)
    );
    assert_eq!(
        state.playback_stall(startup + 1, AUTOMATIC_STARTUP_TIMEOUT, now),
        None
    );

    state.last_frame_at = Some(now - FRAME_STALL_TIMEOUT);
    assert_eq!(
        state.playback_stall(startup, AUTOMATIC_STARTUP_TIMEOUT, now),
        Some(Stall::Frame)
    );

    state.awaiting_opening_since = Some(now - SEEK_STALL_TIMEOUT);
    assert_eq!(
        state.playback_stall(startup, AUTOMATIC_STARTUP_TIMEOUT, now),
        Some(Stall::Seek)
    );
}

#[test]
fn software_retry_only_precedes_the_first_frame() {
    assert!(should_retry_with_software(DecoderMode::Automatic, false));
    assert!(!should_retry_with_software(DecoderMode::Automatic, true));
    assert!(!should_retry_with_software(DecoderMode::Software, false));
    assert!(!should_retry_with_software(DecoderMode::Software, true));
}

#[test]
fn loops_blend_by_the_time_a_frame_is_due() {
    let transition = LoopTransition {
        held: frame(0, 0),
        started_at: seconds(5),
        duration: 2_000_000_000,
    };
    assert_eq!(transition_progress(&transition, Some(seconds(1)), 0), 128);
    assert_eq!(transition_progress(&transition, Some(seconds(9)), 0), 256);
    assert_eq!(transition_progress(&transition, None, seconds(6)), 128);
    assert_eq!(transition_progress(&transition, None, seconds(4)), 0);

    let mut shared = Shared::new();
    shared.publish_frame(frame(100, 0), 0);
    shared.begin_loop_at(2_000_000_000, 0);
    shared.publish_frame(frame(200, seconds(1)), seconds(1));
    assert_eq!(shared.last_frame.as_ref().unwrap().bytes()[0], 150);
    shared.publish_frame(frame(200, seconds(2)), seconds(2));
    assert_eq!(shared.last_frame.as_ref().unwrap().bytes()[0], 200);
    assert!(shared.transition.is_none());
}

#[test]
fn attempts_end_in_a_retry_or_a_failure() {
    let broken = PlaybackOutcome::Failed(Failure::Stream);
    assert_eq!(
        after_attempt(DecoderMode::Automatic, broken, false, false),
        AfterAttempt::Retry(DecoderMode::Software)
    );
    assert_eq!(
        after_attempt(DecoderMode::Software, broken, false, false),
        AfterAttempt::Fail(Failure::Stream)
    );
    assert_eq!(
        after_attempt(DecoderMode::Automatic, broken, true, false),
        AfterAttempt::Return
    );
    assert_eq!(
        after_attempt(DecoderMode::Automatic, PlaybackOutcome::Stopped, false, false),
        AfterAttempt::Return
    );
    assert_eq!(DecoderMode::Automatic.element(), "decodebin");
    assert_eq!(DecoderMode::Software.element(), "avdec_h265");
}

#[test]
fn monitors_notice_every_way_to_fail() {
    let mut shared = Shared::new();
    let mode = DecoderMode::Software;
    assert_eq!(monitor(&shared, false, mode, 0, 0, false), None);
    assert_eq!(
        monitor(&shared, true, mode, 0, 0, true),
        Some(PlaybackOutcome::Stopped)
    );
    assert_eq!(
        monitor(&shared, true, mode, 0, 0, false),
        Some(PlaybackOutcome::Failed(Failure::Frames))
    );
    assert_eq!(
        monitor(&shared, false, mode, 0, SOFTWARE_STARTUP_TIMEOUT, false),
        Some(PlaybackOutcome::Failed(Failure::Stalled(Stall::Startup)))
    );
    shared.fail_once();
    assert_eq!(
        monitor(&shared, true, mode, 0, 0, false),
        Some(PlaybackOutcome::Stopped)
    );

    let mut shared = Shared::new();
    shared.publish_frame(frame(9, 0), 0);
    assert_eq!(
        take_message(&mut shared, Message::Loop, 7, 3),
        AfterMessage::StartLoop
    );
    assert_eq!(shared.transition.as_ref().unwrap().duration, 7);
    assert_eq!(shared.awaiting_opening_since, Some(3));
    for (message, failure) in [
        (Message::Looped(false), Failure::LoopSeek),
        (Message::End, Failure::End),
        (Message::Error, Failure::Stream),
    ] {
        assert_eq!(
            take_message(&mut shared, message, 7, 3),
            AfterMessage::Finish(PlaybackOutcome::Failed(failure))
        );
    }
    for message in [Message::Looped(true), Message::Other] {
        assert_eq!(
            take_message(&mut shared, message, 7, 3),
            AfterMessage::Continue
        );
    }
}

#[test]
fn video_failures_are_told_in_words() {
    for (failure, text) in [
        (Failure::Rewind, "wallpaper file could not be rewound"),
        (Failure::Build, "wallpaper decode pipeline could not be built"),
        (Failure::Start, "wallpaper decode pipeline did not start"),
        (Failure::Frames, "wallpaper frame decoding failed"),
        (
            Failure::Stalled(Stall::Startup),
            "wallpaper did not produce its first frame in time",
        ),
        (
            Failure::Stalled(Stall::Frame),
            "wallpaper playback stopped producing frames",
        ),
        (
            Failure::Stalled(Stall::Seek),
            "wallpaper loop did not resume after seeking",
        ),
        (Failure::LoopSeek, "wallpaper loop seek failed"),
        (Failure::End, "wallpaper reached its end before looping"),
        (Failure::Stream, "wallpaper stream failed"),
    ] {
        assert_eq!(failure.message(), text);
    }
}

#[test]
fn pipelines_decode_hevc_only() {
    assert_eq!(
        pipeline_elements(DecoderMode::Software),
        [
            "fdsrc",
            "qtdemux",
            "h265parse",
            "avdec_h265",
            "videoconvert",
            "videorate"
        ]
    );
    assert_eq!(pipeline_elements(DecoderMode::Automatic)[3], "decodebin");
    assert_eq!(OUTPUT_FRAMES_PER_SECOND, 30);
    assert!(DecoderMode::Software.has_output_at_once());
    assert!(!DecoderMode::Automatic.has_output_at_once());
    assert!(takes_pad(Inlet::Parser, false, Some("video/x-h265")));
    assert!(!takes_pad(Inlet::Parser, false, Some("video/x-h264")));
    assert!(!takes_pad(Inlet::Parser, false, Some("audio/mpeg")));
    assert!(!takes_pad(Inlet::Parser, false, None));
    assert!(!takes_pad(Inlet::Parser, true, Some("video/x-h265")));
    assert!(takes_pad(Inlet::Converter, false, Some("video/x-raw")));
    assert!(takes_pad(Inlet::Converter, false, Some("video/x-raw(memory:DMABuf)")));
    assert!(!takes_pad(Inlet::Converter, false, Some("video/x-ra")));
    assert!(!takes_pad(Inlet::Converter, false, Some("audio/x-raw")));
}

#[test]
fn samples_break_a_pipeline_that_cannot_go_on() {
    let taken = |action, shown, asked| Sampled::Taken {
        action,
        shown,
        asked,
    };
    assert!(breaks_pipeline(Sampled::Undecoded));
    assert!(breaks_pipeline(taken(LoopFrameAction::Request, true, false)));
    assert!(!breaks_pipeline(taken(LoopFrameAction::Request, true, true)));
    assert!(!breaks_pipeline(taken(LoopFrameAction::Request, false, false)));
    assert!(!breaks_pipeline(taken(LoopFrameAction::Publish, true, false)));
    assert!(!breaks_pipeline(taken(LoopFrameAction::Drop, false, false)));
}

#[test]
fn a_frame_is_shown_before_its_loop_is_asked_for() {
    assert!(LoopFrameAction::Publish.shows() && LoopFrameAction::Request.shows());
    assert!(!LoopFrameAction::Drop.shows());
    assert!(LoopFrameAction::Request.asks(true));
    assert!(!LoopFrameAction::Request.asks(false));
    assert!(!LoopFrameAction::Publish.asks(true) && !LoopFrameAction::Drop.asks(true));
}
