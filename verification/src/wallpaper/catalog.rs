//! Which wallpaper is shown, where it is found, and what is said when it fails.

use vstd::prelude::*;

use crate::dynamic_wallpaper::model::AppearancePreference;
use crate::paths::{extension, join, parent};
use crate::stable_file::OpenError;
use crate::text::{equal_letters, is_control, joined};

verus! {

/// Where the packaged wallpapers are, below the installation prefix.
pub const WALLPAPER_DIRECTORY: &'static str = "share/genkan/wallpapers";

/// The characters one diagnostic may take.
pub const MAX_DIAGNOSTIC_CHARS: usize = 240;

/// A packaged wallpaper. Spans are nanoseconds.
#[derive(Clone, Copy, Debug)]
pub struct PlaybackSpec {
    pub install_name: &'static str,
    pub poster_name: &'static str,
    pub duration: u128,
    pub crossfade: u64,
}

/// The packaged wallpapers.
#[derive(Clone, Copy, Debug, PartialEq, Eq, Structural)]
pub enum Catalog {
    TahoeBeach,
    SequoiaSunrise,
    SequoiaMorning,
    SequoiaNight,
}

impl Default for Catalog {
    fn default() -> (catalog: Self)
        ensures
            catalog == Catalog::TahoeBeach,
    {
        Catalog::TahoeBeach
    }
}

impl Catalog {
    /// The name a wallpaper is chosen by.
    pub open spec fn called(self) -> Seq<char> {
        match self {
            Catalog::TahoeBeach => "tahoe-beach"@,
            Catalog::SequoiaSunrise => "sequoia-sunrise"@,
            Catalog::SequoiaMorning => "sequoia-morning"@,
            Catalog::SequoiaNight => "sequoia-night"@,
        }
    }

    /// How long a wallpaper runs before it loops, and how long its end and its
    /// beginning are blended.
    pub open spec fn spans(self) -> (u128, u64) {
        match self {
            Catalog::TahoeBeach => (120_004_167_000, 2_000_000_000),
            Catalog::SequoiaSunrise => (120_008_333_000, 1_000_000_000),
            Catalog::SequoiaMorning => (243_336_667_000, 1_000_000_000),
            Catalog::SequoiaNight => (291_603_333_000, 2_000_000_000),
        }
    }

    /// The name a wallpaper is chosen by.
    pub fn name(self) -> (name: &'static str)
        ensures
            name@ == self.called(),
    {
        match self {
            Catalog::TahoeBeach => "tahoe-beach",
            Catalog::SequoiaSunrise => "sequoia-sunrise",
            Catalog::SequoiaMorning => "sequoia-morning",
            Catalog::SequoiaNight => "sequoia-night",
        }
    }

    /// The files of a wallpaper and how it loops.
    pub fn spec(self) -> (playback: PlaybackSpec)
        ensures
            (playback.duration, playback.crossfade) == self.spans(),
            playback.install_name@ == self.called() + ".mov"@,
            playback.poster_name@ == self.called() + "-poster.jpg"@,
    {
        proof {
            reveal_strlit(".mov");
            reveal_strlit("-poster.jpg");
            reveal_strlit("tahoe-beach");
            reveal_strlit("tahoe-beach.mov");
            reveal_strlit("tahoe-beach-poster.jpg");
            reveal_strlit("sequoia-sunrise");
            reveal_strlit("sequoia-sunrise.mov");
            reveal_strlit("sequoia-sunrise-poster.jpg");
            reveal_strlit("sequoia-morning");
            reveal_strlit("sequoia-morning.mov");
            reveal_strlit("sequoia-morning-poster.jpg");
            reveal_strlit("sequoia-night");
            reveal_strlit("sequoia-night.mov");
            reveal_strlit("sequoia-night-poster.jpg");
        }
        match self {
            Catalog::TahoeBeach => PlaybackSpec {
                install_name: "tahoe-beach.mov",
                poster_name: "tahoe-beach-poster.jpg",
                duration: 120_004_167_000,
                crossfade: 2_000_000_000,
            },
            Catalog::SequoiaSunrise => PlaybackSpec {
                install_name: "sequoia-sunrise.mov",
                poster_name: "sequoia-sunrise-poster.jpg",
                duration: 120_008_333_000,
                crossfade: 1_000_000_000,
            },
            Catalog::SequoiaMorning => PlaybackSpec {
                install_name: "sequoia-morning.mov",
                poster_name: "sequoia-morning-poster.jpg",
                duration: 243_336_667_000,
                crossfade: 1_000_000_000,
            },
            Catalog::SequoiaNight => PlaybackSpec {
                install_name: "sequoia-night.mov",
                poster_name: "sequoia-night-poster.jpg",
                duration: 291_603_333_000,
                crossfade: 2_000_000_000,
            },
        }
    }
}

/// The command-line name of an appearance preference.
pub fn appearance_argument(appearance: AppearancePreference) -> (argument: &'static str)
    ensures
        argument@ == appearance.called(),
{
    match appearance {
        AppearancePreference::Automatic => "automatic",
        AppearancePreference::Light => "light",
        AppearancePreference::Dark => "dark",
    }
}

/// One argument of the worker: a word, or the path of the wallpaper.
#[derive(Clone, Copy, Debug, PartialEq, Eq, Structural)]
pub enum WorkerArgument {
    Worker,
    File,
    Path,
    AppearanceFlag,
    Appearance(AppearancePreference),
    ReduceMotion,
}

impl WorkerArgument {
    /// The argument's text, where it is a word.
    pub open spec fn text(self) -> Option<Seq<char>> {
        match self {
            WorkerArgument::Worker => Some("heic-worker"@),
            WorkerArgument::File => Some("--file"@),
            WorkerArgument::Path => None,
            WorkerArgument::AppearanceFlag => Some("--appearance"@),
            WorkerArgument::Appearance(appearance) => Some(appearance.called()),
            WorkerArgument::ReduceMotion => Some("--reduce-motion"@),
        }
    }

    /// The argument's text, where it is a word.
    pub fn word(self) -> (word: Option<&'static str>)
        ensures
            (match word {
                Some(word) => Some(word@),
                None => None,
            }) == self.text(),
    {
        match self {
            WorkerArgument::Worker => Some("heic-worker"),
            WorkerArgument::File => Some("--file"),
            WorkerArgument::Path => None,
            WorkerArgument::AppearanceFlag => Some("--appearance"),
            WorkerArgument::Appearance(appearance) => Some(appearance_argument(appearance)),
            WorkerArgument::ReduceMotion => Some("--reduce-motion"),
        }
    }
}

/// The arguments of a worker.
pub open spec fn worker_line(appearance: AppearancePreference, reduced_motion: bool) -> Seq<
    WorkerArgument,
> {
    let line = seq![
        WorkerArgument::Worker,
        WorkerArgument::File,
        WorkerArgument::Path,
        WorkerArgument::AppearanceFlag,
        WorkerArgument::Appearance(appearance),
    ];
    if reduced_motion {
        line.push(WorkerArgument::ReduceMotion)
    } else {
        line
    }
}

/// The arguments of the process that parses and decodes a wallpaper.
pub fn worker_arguments(appearance: AppearancePreference, reduced_motion: bool) -> (arguments: Vec<
    WorkerArgument,
>)
    ensures
        arguments@ == worker_line(appearance, reduced_motion),
{
    let mut arguments: Vec<WorkerArgument> = Vec::new();
    arguments.push(WorkerArgument::Worker);
    arguments.push(WorkerArgument::File);
    arguments.push(WorkerArgument::Path);
    arguments.push(WorkerArgument::AppearanceFlag);
    arguments.push(WorkerArgument::Appearance(appearance));
    if reduced_motion {
        arguments.push(WorkerArgument::ReduceMotion);
    }
    assert(arguments@ =~= worker_line(appearance, reduced_motion));
    arguments
}

// ---------------------------------------------------------------------------
// Paths
// ---------------------------------------------------------------------------

/// Whether an extension is that of a dynamic wallpaper.
pub open spec fn heic_extension(extension: Option<Seq<char>>) -> bool {
    extension matches Some(extension) && (crate::text::same_letters(extension, "heic"@)
        || crate::text::same_letters(extension, "heif"@))
}

/// Whether an extension is that of a dynamic wallpaper.
pub fn is_heic_extension(extension: Option<&str>) -> (answer: bool)
    ensures
        answer == heic_extension(
            match extension {
                Some(extension) => Some(extension@),
                None => None,
            },
        ),
{
    match extension {
        Some(extension) => equal_letters(extension, "heic") || equal_letters(extension, "heif"),
        None => false,
    }
}

/// Whether a path names a dynamic HEIC/HEIF wallpaper by extension.
pub fn is_heic_path(path: &std::path::PathBuf) -> (answer: bool)
    ensures
        answer == heic_extension(crate::paths::path_extension(*path)),
{
    is_heic_extension(extension(path))
}

/// Where a packaged wallpaper is, for the program at `executable`.
pub open spec fn packaged_path(
    executable: std::path::PathBuf,
    install_name: Seq<char>,
) -> Option<std::path::PathBuf> {
    match crate::paths::path_parent(executable) {
        None => None,
        Some(directory) => match crate::paths::path_parent(directory) {
            None => None,
            Some(prefix) => Some(
                crate::paths::path_join(crate::paths::path_join(prefix, WALLPAPER_DIRECTORY@), install_name),
            ),
        },
    }
}

/// Where a packaged wallpaper is, for the program at `executable`.
pub fn wallpaper_path_for_executable(executable: &std::path::PathBuf, install_name: &str) -> (path:
    Option<std::path::PathBuf>)
    ensures
        path == packaged_path(*executable, install_name@),
{
    let directory = match parent(executable) {
        Some(directory) => directory,
        None => return None,
    };
    let prefix = match parent(&directory) {
        Some(prefix) => prefix,
        None => return None,
    };
    Some(join(&join(&prefix, WALLPAPER_DIRECTORY), install_name))
}

/// What the user chose to see.
#[derive(Debug)]
pub struct Settings {
    pub catalog: Catalog,
    pub override_path: Option<std::path::PathBuf>,
    pub animate: bool,
    /// Keeps time-of-day scheduling of a dynamic wallpaper but switches frames
    /// at once. It has no effect on a video, which does not run at all where
    /// `animate` is off.
    pub reduced_motion: bool,
    /// Explicit light or dark preference for a dynamic wallpaper.
    pub appearance: AppearancePreference,
}

/// What plays behind the greeter.
#[derive(Debug)]
pub enum Source {
    /// The poster of the catalog, and nothing else.
    Poster,
    /// A dynamic wallpaper.
    Dynamic(std::path::PathBuf),
    /// A packaged video, or the user's own.
    Video(Option<std::path::PathBuf>),
}

/// What plays for given settings.
pub open spec fn source_chosen(settings: Settings) -> Source {
    if !settings.animate {
        Source::Poster
    } else {
        match settings.override_path {
            Some(path) => if heic_extension(crate::paths::path_extension(path)) {
                Source::Dynamic(path)
            } else {
                Source::Video(Some(path))
            },
            None => Source::Video(None),
        }
    }
}

impl Settings {
    /// The local dynamic wallpaper, if one was supplied.
    pub fn heic_path(&self) -> (path: Option<&std::path::PathBuf>)
        ensures
            path == match self.override_path {
                Some(path) => if heic_extension(crate::paths::path_extension(path)) {
                    Some(&path)
                } else {
                    None
                },
                None => None,
            },
    {
        match &self.override_path {
            Some(path) => if is_heic_path(path) {
                Some(path)
            } else {
                None
            },
            None => None,
        }
    }

    /// What plays for these settings.
    pub fn source(self) -> (source: Source)
        ensures
            source == source_chosen(self),
    {
        if !self.animate {
            return Source::Poster;
        }
        match self.override_path {
            Some(path) => if is_heic_path(&path) {
                Source::Dynamic(path)
            } else {
                Source::Video(Some(path))
            },
            None => Source::Video(None),
        }
    }
}

// ---------------------------------------------------------------------------
// Diagnostics
// ---------------------------------------------------------------------------

/// What is said of a wallpaper that stopped playing.
pub fn pipeline_error(reason: &str) -> (text: String)
    ensures
        text@ == reason@ + "; wallpaper playback stopped; retaining current background"@,
{
    joined(reason, "; wallpaper playback stopped; retaining current background")
}

/// Why a wallpaper file could not be opened.
pub open spec fn open_reason(error: OpenError) -> Seq<char> {
    match error {
        OpenError::Unavailable => "wallpaper file is unavailable"@,
        OpenError::Metadata => "wallpaper file metadata is unavailable"@,
        OpenError::NotRegular => "wallpaper path is not a regular file"@,
        OpenError::Reopen => "wallpaper file could not be opened for playback"@,
    }
}

/// What is said of a wallpaper file that could not be opened.
pub fn open_error(error: OpenError) -> (text: String)
    ensures
        text@ == open_reason(error)
            + "; wallpaper playback stopped; retaining current background"@,
{
    pipeline_error(
        match error {
            OpenError::Unavailable => "wallpaper file is unavailable",
            OpenError::Metadata => "wallpaper file metadata is unavailable",
            OpenError::NotRegular => "wallpaper path is not a regular file",
            OpenError::Reopen => "wallpaper file could not be opened for playback",
        },
    )
}

/// A text with a space in place of each control code.
pub open spec fn printable(text: Seq<char>) -> Seq<char> {
    text.map_values(
        |character: char|
            if crate::text::control(character) {
                ' '
            } else {
                character
            },
    )
}

/// A text that fits one diagnostic line.
pub open spec fn bounded(text: Seq<char>) -> Seq<char> {
    if text.len() > MAX_DIAGNOSTIC_CHARS {
        printable(text).take(MAX_DIAGNOSTIC_CHARS - 1).push('…')
    } else {
        printable(text)
    }
}

/// A text that fits one diagnostic line: without control codes, and cut with an
/// ellipsis where it is too long.
pub fn bounded_text(message: &str) -> (text: String)
    ensures
        text@ == bounded(message@),
{
    let mut text = String::new();
    let mut shorter = String::new();
    let mut count: usize = 0;
    for character in iter: message.chars()
        invariant
            iter.seq() == message@,
            count <= MAX_DIAGNOSTIC_CHARS + 1,
            count == if iter.index() <= MAX_DIAGNOSTIC_CHARS {
                iter.index() as int
            } else {
                MAX_DIAGNOSTIC_CHARS + 1
            },
            text@ =~= printable(message@).take(
                if iter.index() <= MAX_DIAGNOSTIC_CHARS {
                    iter.index() as int
                } else {
                    MAX_DIAGNOSTIC_CHARS as int
                },
            ),
            shorter@ =~= printable(message@).take(
                if iter.index() < MAX_DIAGNOSTIC_CHARS {
                    iter.index() as int
                } else {
                    MAX_DIAGNOSTIC_CHARS - 1
                },
            ),
    {
        let shown = if is_control(character) {
            ' '
        } else {
            character
        };
        if count < MAX_DIAGNOSTIC_CHARS - 1 {
            shorter.push(shown);
        }
        if count < MAX_DIAGNOSTIC_CHARS {
            text.push(shown);
        }
        if count <= MAX_DIAGNOSTIC_CHARS {
            count += 1;
        }
    }
    if count > MAX_DIAGNOSTIC_CHARS {
        shorter.push('…');
        return shorter;
    }
    assert(text@ =~= printable(message@));
    text
}

/// A diagnostic never spans lines and never exceeds its length.
pub proof fn law_diagnostics_are_one_bounded_line(text: Seq<char>)
    ensures
        bounded(text).len() <= MAX_DIAGNOSTIC_CHARS,
        forall|index: int|
            0 <= index < bounded(text).len() ==> !crate::text::control(
                #[trigger] bounded(text)[index],
            ),
{
}

/// A wallpaper says its own name, and no other one says it.
pub proof fn law_wallpapers_are_told_by_their_names(left: Catalog, right: Catalog)
    ensures
        left.called() == right.called() <==> left == right,
{
    reveal_strlit("tahoe-beach");
    reveal_strlit("sequoia-sunrise");
    reveal_strlit("sequoia-morning");
    reveal_strlit("sequoia-night");
    if left.called() == right.called() && left != right {
        assert(left.called().len() == right.called().len());
        assert(left.called()[8] == right.called()[8]);
    }
}

/// Every wallpaper runs for two minutes or more, and blends for one or two seconds of
/// them: the beach and the night for two.
pub proof fn law_wallpapers_blend_within_their_length(catalog: Catalog)
    ensures
        catalog.spans().0 >= 120_000_000_000,
        catalog.spans().1 == if catalog == Catalog::TahoeBeach || catalog
            == Catalog::SequoiaNight {
            2_000_000_000int
        } else {
            1_000_000_000
        },
        catalog.spans().0 == match catalog {
            Catalog::TahoeBeach => 120_004_167_000,
            Catalog::SequoiaSunrise => 120_008_333_000,
            Catalog::SequoiaMorning => 243_336_667_000,
            Catalog::SequoiaNight => 291_603_333_000int,
        },
{
}

/// The worker is told its task first, then the file and the appearance, each behind
/// its own flag, and that motion is reduced exactly where it is.
pub proof fn law_workers_are_told_what_to_show(
    appearance: AppearancePreference,
    reduced_motion: bool,
    at: int,
)
    requires
        0 <= at < worker_line(appearance, reduced_motion).len(),
    ensures
        ({
            let line = worker_line(appearance, reduced_motion);
            &&& line[at] == WorkerArgument::Worker <==> at == 0
            &&& line[at] == WorkerArgument::Path <==> at > 0 && line[at - 1] == WorkerArgument::File
            &&& line[at] is Appearance <==> at > 0 && line[at - 1] == WorkerArgument::AppearanceFlag
            &&& line[at] is Appearance ==> line[at] == WorkerArgument::Appearance(appearance)
            &&& line.contains(WorkerArgument::Path)
            &&& line.contains(WorkerArgument::Appearance(appearance))
            &&& line.contains(WorkerArgument::ReduceMotion) <==> reduced_motion
        }),
{
    let line = worker_line(appearance, reduced_motion);
    assert(line[2] == WorkerArgument::Path);
    assert(line[4] == WorkerArgument::Appearance(appearance));
    if reduced_motion {
        assert(line[5] == WorkerArgument::ReduceMotion);
    }
}

/// A file is a dynamic wallpaper where its extension is heic or heif in any case.
pub proof fn law_dynamic_wallpapers_are_told_by_their_extension(extension: Seq<char>)
    ensures
        !heic_extension(None),
        heic_extension(Some(extension)) <==> {
            &&& extension.len() == 4
            &&& extension[0] == 'h' || extension[0] == 'H'
            &&& extension[1] == 'e' || extension[1] == 'E'
            &&& extension[2] == 'i' || extension[2] == 'I'
            &&& extension[3] == 'c' || extension[3] == 'C' || extension[3] == 'f' || extension[3]
                == 'F'
        },
{
    reveal_strlit("heic");
    reveal_strlit("heif");
    crate::text::law_case_does_not_count(extension, "heic"@);
    crate::text::law_case_does_not_count(extension, "heif"@);
    if extension.len() == 4 {
        assert(extension[0] == extension[0] && extension[1] == extension[1] && extension[2]
            == extension[2] && extension[3] == extension[3]);
    }
}

/// Nothing plays where nothing is to be animated. Otherwise the user's own file plays,
/// by its kind, and the catalog's video where there is none.
pub proof fn law_the_users_file_is_played(settings: Settings, path: std::path::PathBuf)
    ensures
        source_chosen(settings) == Source::Poster <==> !settings.animate,
        settings.animate ==> {
            let dynamic = heic_extension(crate::paths::path_extension(path));
            &&& source_chosen(settings) == Source::Dynamic(path) <==> settings.override_path
                == Some(path) && dynamic
            &&& source_chosen(settings) == Source::Video(Some(path)) <==> settings.override_path
                == Some(path) && !dynamic
            &&& source_chosen(settings) == Source::Video(None) <==> settings.override_path is None
        },
{
}

/// A packaged wallpaper lies in the directory of wallpapers below what lies two levels
/// above the program, and nowhere where there is no such level.
pub proof fn law_packaged_wallpapers_lie_below_the_prefix(
    executable: std::path::PathBuf,
    directory: std::path::PathBuf,
    prefix: std::path::PathBuf,
    install_name: Seq<char>,
)
    ensures
        crate::paths::path_parent(executable) == Some(directory) && crate::paths::path_parent(
            directory,
        ) == Some(prefix) ==> packaged_path(executable, install_name) == Some(
            crate::paths::path_join(
                crate::paths::path_join(prefix, "share/genkan/wallpapers"@),
                install_name,
            ),
        ),
        crate::paths::path_parent(executable) is None ==> packaged_path(executable, install_name)
            is None,
        crate::paths::path_parent(executable) == Some(directory) && crate::paths::path_parent(
            directory,
        ) is None ==> packaged_path(executable, install_name) is None,
{
}

/// A diagnostic says what the text says, character by character, with a space for each
/// control code. A text of more than 240 characters is cut to 240, the last of which
/// is an ellipsis; no other text is cut.
pub proof fn law_diagnostics_say_what_the_text_says(text: Seq<char>, index: int)
    requires
        0 <= index < text.len(),
    ensures
        text.len() <= 240 ==> bounded(text).len() == text.len(),
        text.len() > 240 ==> bounded(text).len() == 240 && bounded(text)[239] == '…',
        text.len() <= 240 || index < 239 ==> bounded(text)[index] == if crate::text::control(
            text[index],
        ) {
            ' '
        } else {
            text[index]
        },
{
}

/// A file that could not be opened is told by the step that failed, no two alike.
pub proof fn law_open_failures_are_told_apart(left: OpenError, right: OpenError)
    ensures
        open_reason(left) == open_reason(right) <==> left == right,
        open_reason(OpenError::Unavailable) == "wallpaper "@ + OpenError::Unavailable.text(),
        open_reason(OpenError::Metadata) == "wallpaper "@ + OpenError::Metadata.text(),
        open_reason(OpenError::NotRegular) == "wallpaper "@ + OpenError::NotRegular.text(),
{
    reveal_strlit("wallpaper ");
    reveal_strlit("wallpaper file is unavailable");
    reveal_strlit("wallpaper file metadata is unavailable");
    reveal_strlit("wallpaper path is not a regular file");
    reveal_strlit("wallpaper file could not be opened for playback");
    reveal_strlit("file is unavailable");
    reveal_strlit("file metadata is unavailable");
    reveal_strlit("path is not a regular file");
    assert(open_reason(OpenError::Unavailable) =~= "wallpaper "@ + OpenError::Unavailable.text());
    assert(open_reason(OpenError::Metadata) =~= "wallpaper "@ + OpenError::Metadata.text());
    assert(open_reason(OpenError::NotRegular) =~= "wallpaper "@ + OpenError::NotRegular.text());
    assert(open_reason(OpenError::Unavailable).len() == 29);
    assert(open_reason(OpenError::Metadata).len() == 38);
    assert(open_reason(OpenError::NotRegular).len() == 36);
    assert(open_reason(OpenError::Reopen).len() == 47);
}

} // verus!
