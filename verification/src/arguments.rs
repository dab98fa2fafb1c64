//! What the command line says.

use vstd::prelude::*;

use crate::locker::identity::{presentation_label, valid_username};
use crate::paths::{extension, is_absolute};
use crate::text::{equal_letters, parse_number};
use crate::dynamic_wallpaper::model::AppearancePreference;
use crate::wallpaper::catalog::{Catalog, Settings};

verus! {

/// The width of a window that is not told otherwise.
pub const DEFAULT_WINDOW_WIDTH: u32 = 1280;

/// The height of a window that is not told otherwise.
pub const DEFAULT_WINDOW_HEIGHT: u32 = 800;

/// The smallest side of a window.
pub const MIN_DIMENSION: u32 = 320;

/// The largest side of a window.
pub const MAX_DIMENSION: u32 = 16_384;

/// What is wrong with an argument.
#[derive(Clone, Copy, Debug, PartialEq, Eq, Structural)]
pub enum ArgumentError {
    Username,
    DisplayName,
    DimensionNumber,
    DimensionRange,
    ReadyFdNumber,
    ReadyFdStandard,
    WallpaperRelative,
    WallpaperExtension,
    WallpaperMissing,
}

impl ArgumentError {
    pub open spec fn text(self) -> Seq<char> {
        match self {
            ArgumentError::Username =>
                "username must be 1–256 characters without whitespace or control characters"@,
            ArgumentError::DisplayName => "display name must contain visible characters"@,
            ArgumentError::DimensionNumber => "window dimensions must be whole numbers"@,
            ArgumentError::DimensionRange =>
                "window dimensions must be between 320 and 16384 pixels"@,
            ArgumentError::ReadyFdNumber => "ready descriptor must be a non-negative integer"@,
            ArgumentError::ReadyFdStandard =>
                "ready descriptor must not replace stdin, stdout, or stderr"@,
            ArgumentError::WallpaperRelative =>
                "wallpaper file must be an absolute local path, not a URI or pipeline"@,
            ArgumentError::WallpaperExtension =>
                "wallpaper file must be a MOV file, not a playlist or pipeline"@,
            ArgumentError::WallpaperMissing =>
                "wallpaper file must name an existing regular file"@,
        }
    }

    /// The error as a sentence.
    pub fn message(self) -> (text: &'static str)
        ensures
            text@ == self.text(),
    {
        match self {
            ArgumentError::Username =>
                "username must be 1–256 characters without whitespace or control characters",
            ArgumentError::DisplayName => "display name must contain visible characters",
            ArgumentError::DimensionNumber => "window dimensions must be whole numbers",
            ArgumentError::DimensionRange =>
                "window dimensions must be between 320 and 16384 pixels",
            ArgumentError::ReadyFdNumber => "ready descriptor must be a non-negative integer",
            ArgumentError::ReadyFdStandard =>
                "ready descriptor must not replace stdin, stdout, or stderr",
            ArgumentError::WallpaperRelative =>
                "wallpaper file must be an absolute local path, not a URI or pipeline",
            ArgumentError::WallpaperExtension =>
                "wallpaper file must be a MOV file, not a playlist or pipeline",
            ArgumentError::WallpaperMissing =>
                "wallpaper file must name an existing regular file",
        }
    }
}

/// Takes a user name, where it is a valid one.
pub fn parse_username(value: &str) -> (username: Result<String, ArgumentError>)
    ensures
        crate::locker::identity::username_valid(value@) ==> (username matches Ok(username)
            && username@ == value@),
        !crate::locker::identity::username_valid(value@) ==> username == Err::<
            String,
            ArgumentError,
        >(ArgumentError::Username),
{
    if valid_username(value) {
        Ok(value.to_owned())
    } else {
        Err(ArgumentError::Username)
    }
}

/// Takes what can be shown of a display name, where there is any.
pub fn parse_display_name(value: &str) -> (name: Result<String, ArgumentError>)
    ensures
        match crate::locker::identity::label_of(value@) {
            Some(label) => name matches Ok(name) && name@ == label,
            None => name == Err::<String, ArgumentError>(ArgumentError::DisplayName),
        },
{
    match presentation_label(value) {
        Some(label) => Ok(label),
        None => Err(ArgumentError::DisplayName),
    }
}

/// A side of a window, by its text.
pub open spec fn dimension_of(text: Seq<char>) -> Result<int, ArgumentError> {
    match crate::text::number(text, false) {
        Some(value) => if value > u32::MAX {
            Err(ArgumentError::DimensionNumber)
        } else if MIN_DIMENSION <= value <= MAX_DIMENSION {
            Ok(value)
        } else {
            Err(ArgumentError::DimensionRange)
        },
        None => Err(ArgumentError::DimensionNumber),
    }
}

/// Takes a side of a window.
pub fn parse_dimension(value: &str) -> (dimension: Result<u32, ArgumentError>)
    ensures
        (match dimension {
            Ok(dimension) => Ok(dimension as int),
            Err(error) => Err(error),
        }) == dimension_of(value@),
{
    proof {
        crate::text::lemma_unsigned_numbers(value@);
    }
    match parse_number(value, false, 0xffff_ffff) {
        Some((_, magnitude)) => {
            let dimension: u32 = magnitude as u32;
            if MIN_DIMENSION <= dimension && dimension <= MAX_DIMENSION {
                Ok(dimension)
            } else {
                Err(ArgumentError::DimensionRange)
            }
        },
        None => Err(ArgumentError::DimensionNumber),
    }
}

/// A descriptor for readiness, by its text.
pub open spec fn ready_fd_of(text: Seq<char>) -> Result<int, ArgumentError> {
    match crate::text::number(text, true) {
        Some(value) => if value < i32::MIN || value > i32::MAX {
            Err(ArgumentError::ReadyFdNumber)
        } else if value <= 2 {
            Err(ArgumentError::ReadyFdStandard)
        } else {
            Ok(value)
        },
        None => Err(ArgumentError::ReadyFdNumber),
    }
}

/// Takes a descriptor for readiness. It is none of the standard ones.
pub fn parse_ready_fd(value: &str) -> (descriptor: Result<i32, ArgumentError>)
    ensures
        (match descriptor {
            Ok(descriptor) => Ok(descriptor as int),
            Err(error) => Err(error),
        }) == ready_fd_of(value@),
{
    match parse_number(value, true, 0x8000_0000) {
        Some((negative, magnitude)) => {
            if !negative && magnitude > 0x7fff_ffff {
                return Err(ArgumentError::ReadyFdNumber);
            }
            if negative || magnitude <= 2 {
                return Err(ArgumentError::ReadyFdStandard);
            }
            Ok(magnitude as i32)
        },
        None => Err(ArgumentError::ReadyFdNumber),
    }
}

/// Whether an extension is that of a video the user may choose.
pub open spec fn movie_extension(extension: Option<Seq<char>>) -> bool {
    extension matches Some(extension) && crate::text::same_letters(extension, "mov"@)
}

/// What is wrong with a wallpaper file.
pub open spec fn wallpaper_fault(absolute: bool, movie: bool, exists: bool) -> Option<
    ArgumentError,
> {
    if !absolute {
        Some(ArgumentError::WallpaperRelative)
    } else if !movie {
        Some(ArgumentError::WallpaperExtension)
    } else if !exists {
        Some(ArgumentError::WallpaperMissing)
    } else {
        None
    }
}

/// Judges a wallpaper file by whether its path is absolute, by its extension, and by
/// whether it is there.
pub fn judge_wallpaper_file(absolute: bool, extension: Option<&str>, exists: bool) -> (fault: Option<
    ArgumentError,
>)
    ensures
        fault == wallpaper_fault(
            absolute,
            movie_extension(
                match extension {
                    Some(extension) => Some(extension@),
                    None => None,
                },
            ),
            exists,
        ),
{
    if !absolute {
        return Some(ArgumentError::WallpaperRelative);
    }
    let movie = match extension {
        Some(extension) => equal_letters(extension, "mov"),
        None => false,
    };
    if !movie {
        return Some(ArgumentError::WallpaperExtension);
    }
    if !exists {
        return Some(ArgumentError::WallpaperMissing);
    }
    None
}

/// Takes a wallpaper file. `exists` says whether it names a regular file.
pub fn parse_wallpaper_file(path: std::path::PathBuf, exists: bool) -> (file: Result<
    std::path::PathBuf,
    ArgumentError,
>)
    ensures
        file == match wallpaper_fault(
            crate::paths::path_is_absolute(path),
            movie_extension(crate::paths::path_extension(path)),
            exists,
        ) {
            Some(fault) => Err(fault),
            None => Ok(path),
        },
{
    match judge_wallpaper_file(is_absolute(&path), extension(&path), exists) {
        Some(fault) => Err(fault),
        None => Ok(path),
    }
}

/// Whether the wallpaper moves: not where motion is reduced, and in a preview only
/// where it is asked for.
pub fn animate_wallpaper(preview: bool, reduce_motion: bool, animated_preview: bool) -> (animate:
    bool)
    ensures
        animate == (!reduce_motion && (preview ==> animated_preview)),
{
    !reduce_motion && (!preview || animated_preview)
}

/// The size of a window.
pub fn window_size(width: Option<u32>, height: Option<u32>) -> (size: (u32, u32))
    ensures
        size.0 == (match width {
            Some(width) => width,
            None => DEFAULT_WINDOW_WIDTH,
        }),
        size.1 == (match height {
            Some(height) => height,
            None => DEFAULT_WINDOW_HEIGHT,
        }),
{
    let width: u32 = match width {
        Some(width) => width,
        None => DEFAULT_WINDOW_WIDTH,
    };
    let height: u32 = match height {
        Some(height) => height,
        None => DEFAULT_WINDOW_HEIGHT,
    };
    (width, height)
}

/// How the session is locked.
#[derive(Debug)]
pub struct LockConfig {
    pub wallpaper: Settings,
    pub ready_fd: Option<i32>,
}

/// How the session is locked, by the command line.
pub fn lock_config(
    catalog: Catalog,
    wallpaper_file: Option<std::path::PathBuf>,
    reduce_motion: bool,
    ready_fd: Option<i32>,
) -> (config: LockConfig)
    ensures
        config == (LockConfig {
            wallpaper: Settings {
                catalog,
                override_path: wallpaper_file,
                animate: !reduce_motion,
                reduced_motion: false,
                appearance: AppearancePreference::Automatic,
            },
            ready_fd,
        }),
{
    LockConfig {
        wallpaper: Settings {
            catalog,
            override_path: wallpaper_file,
            animate: !reduce_motion,
            reduced_motion: false,
            appearance: AppearancePreference::Automatic,
        },
        ready_fd,
    }
}

/// A side of a window is a whole number from 320 to 16384; any other number is out of
/// range, and what is no number of thirty-two bits is none.
pub proof fn law_windows_have_bounded_sides(value: nat, text: Seq<char>)
    ensures
        ({
            let side = dimension_of(crate::text::written(value, 10));
            &&& side == Ok::<int, ArgumentError>(value as int) <==> 320 <= value <= 16_384
            &&& side == Err::<int, ArgumentError>(ArgumentError::DimensionRange) <==> value < 320
                || 16_384 < value <= 0xffff_ffff
            &&& side == Err::<int, ArgumentError>(ArgumentError::DimensionNumber) <==> value
                > 0xffff_ffff
        }),
        crate::text::number(text, false) is None ==> dimension_of(text) == Err::<
            int,
            ArgumentError,
        >(ArgumentError::DimensionNumber),
        dimension_of(text) matches Ok(side) ==> crate::text::number(text, false) == Some(side) && 320
            <= side <= 16_384,
{
    crate::text::law_written_numbers_are_read_back(value);
}

/// Readiness is reported on a descriptor from three on; the standard ones and negative
/// numbers are refused as such, and what is no number of thirty-two bits is none.
pub proof fn law_readiness_spares_the_standard_descriptors(value: nat, text: Seq<char>)
    ensures
        ({
            let descriptor = ready_fd_of(crate::text::written(value, 10));
            &&& descriptor == Ok::<int, ArgumentError>(value as int) <==> 3 <= value <= 0x7fff_ffff
            &&& descriptor == Err::<int, ArgumentError>(ArgumentError::ReadyFdStandard) <==> value
                < 3
            &&& descriptor == Err::<int, ArgumentError>(ArgumentError::ReadyFdNumber) <==> value
                > 0x7fff_ffff
        }),
        ready_fd_of(seq!['-'] + crate::text::written(value, 10)) == Err::<int, ArgumentError>(
            if value <= 0x8000_0000 {
                ArgumentError::ReadyFdStandard
            } else {
                ArgumentError::ReadyFdNumber
            },
        ),
        crate::text::number(text, true) is None ==> ready_fd_of(text) == Err::<int, ArgumentError>(
            ArgumentError::ReadyFdNumber,
        ),
        ready_fd_of(text) matches Ok(descriptor) ==> crate::text::number(text, true) == Some(
            descriptor,
        ) && descriptor >= 3,
{
    crate::text::law_written_numbers_are_read_back(value);
}

/// The user's own file is taken where it is an absolute path, a movie, and there; what is
/// wrong with it is named in this order.
pub proof fn law_wallpaper_files_are_absolute_movies(absolute: bool, movie: bool, exists: bool)
    ensures
        wallpaper_fault(absolute, movie, exists) is None <==> absolute && movie && exists,
        wallpaper_fault(absolute, movie, exists) == Some(ArgumentError::WallpaperRelative)
            <==> !absolute,
        wallpaper_fault(absolute, movie, exists) == Some(ArgumentError::WallpaperExtension)
            <==> absolute && !movie,
        wallpaper_fault(absolute, movie, exists) == Some(ArgumentError::WallpaperMissing)
            <==> absolute && movie && !exists,
{
}

/// A file is a movie where its extension is mov in any case.
pub proof fn law_movies_are_told_by_their_extension(extension: Seq<char>)
    ensures
        !movie_extension(None),
        movie_extension(Some(extension)) <==> {
            &&& extension.len() == 3
            &&& extension[0] == 'm' || extension[0] == 'M'
            &&& extension[1] == 'o' || extension[1] == 'O'
            &&& extension[2] == 'v' || extension[2] == 'V'
        },
{
    reveal_strlit("mov");
    crate::text::law_case_does_not_count(extension, "mov"@);
    if extension.len() == 3 {
        assert(extension[0] == extension[0] && extension[1] == extension[1] && extension[2]
            == extension[2]);
    }
}

} // verus!
