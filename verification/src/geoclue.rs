//! A small client of the location service, for the wallpaper of a logged-in user.
//!
//! The client asks for city-level accuracy and offers no choice of provider,
//! service or authorization. What the service says when it fails, and where the
//! user is, never reach a diagnostic: errors are bare categories.

use vstd::prelude::*;

use crate::dynamic_wallpaper::fraction::{INFINITY, NEGATIVE_ZERO};
use crate::dynamic_wallpaper::model::NINETY;
use crate::text::same;

verus! {

/// The name under which the user session authorizes this client.
pub const DESKTOP_ID: &'static str = "genkan-wallpaper";

/// The coarsest accuracy that tells sunrise and sunset.
pub const CITY_ACCURACY_LEVEL: u32 = 2;

/// A fix coarser than a hundred thousand meters is less precise than a city. The
/// bit pattern of the double.
pub const MAX_CITY_ACCURACY_METERS: u64 = 0x40f8_6a00_0000_0000;

/// A half circle in degrees, as the bit pattern of a double.
pub const HALF_CIRCLE: u64 = 0x4066_8000_0000_0000;

/// The bus name of the location service.
pub const SERVICE: &'static str = "org.freedesktop.GeoClue2";

/// The object that hands out clients.
pub const MANAGER_PATH: &'static str = "/org/freedesktop/GeoClue2/Manager";

/// The interface that hands out clients.
pub const MANAGER_INTERFACE: &'static str = "org.freedesktop.GeoClue2.Manager";

/// The interface of a client.
pub const CLIENT_INTERFACE: &'static str = "org.freedesktop.GeoClue2.Client";

/// The interface of a location.
pub const LOCATION_INTERFACE: &'static str = "org.freedesktop.GeoClue2.Location";

/// The object that stands for no location.
pub const EMPTY_PATH: &'static str = "/";

/// The pause between two looks for a location, in nanoseconds.
pub const POLL_INTERVAL: u128 = 100_000_000;

/// Why there is no location. A category says nothing about where the user is, nor
/// what the service said.
#[derive(Clone, Copy, Debug, PartialEq, Eq, Structural)]
pub enum GeoClueError {
    Unavailable,
    Timeout,
    Denied,
    Invalid,
    Coarse,
}

impl GeoClueError {
    pub open spec fn called(self) -> Seq<char> {
        match self {
            GeoClueError::Unavailable => "unavailable"@,
            GeoClueError::Timeout => "timeout"@,
            GeoClueError::Denied => "denied"@,
            GeoClueError::Invalid => "invalid"@,
            GeoClueError::Coarse => "coarse"@,
        }
    }

    pub open spec fn text(self) -> Seq<char> {
        match self {
            GeoClueError::Unavailable => "GeoClue is unavailable"@,
            GeoClueError::Timeout => "GeoClue did not return a location in time"@,
            GeoClueError::Denied => "GeoClue authorization was denied"@,
            GeoClueError::Invalid => "GeoClue returned an invalid location"@,
            GeoClueError::Coarse => "GeoClue location was coarser than city accuracy"@,
        }
    }

    /// One lower-case word for diagnostics.
    pub fn category(self) -> (category: &'static str)
        ensures
            category@ == self.called(),
    {
        match self {
            GeoClueError::Unavailable => "unavailable",
            GeoClueError::Timeout => "timeout",
            GeoClueError::Denied => "denied",
            GeoClueError::Invalid => "invalid",
            GeoClueError::Coarse => "coarse",
        }
    }

    /// The error as a sentence.
    pub fn message(self) -> (text: &'static str)
        ensures
            text@ == self.text(),
    {
        match self {
            GeoClueError::Unavailable => "GeoClue is unavailable",
            GeoClueError::Timeout => "GeoClue did not return a location in time",
            GeoClueError::Denied => "GeoClue authorization was denied",
            GeoClueError::Invalid => "GeoClue returned an invalid location",
            GeoClueError::Coarse => "GeoClue location was coarser than city accuracy",
        }
    }
}

/// Where the user is, at city level. The numbers are degrees and meters, as the bit
/// patterns of doubles.
#[derive(Clone, Copy, Debug, PartialEq, Eq, Structural)]
pub struct GeoLocation {
    pub latitude_bits: u64,
    pub longitude_bits: u64,
    pub accuracy_bits: u64,
}

/// Whether a pattern stands for a number between a bound and its negative.
pub open spec fn within(bits: u64, bound: u64) -> bool {
    bits % NEGATIVE_ZERO <= bound
}

/// Whether a pattern stands for a finite number that is not negative, negative zero
/// counting as zero.
pub open spec fn distance(bits: u64) -> bool {
    bits < INFINITY || bits == NEGATIVE_ZERO
}

/// What three numbers come to.
pub open spec fn located(latitude: u64, longitude: u64, accuracy: u64) -> Result<
    GeoLocation,
    GeoClueError,
> {
    if !within(latitude, NINETY) || !within(longitude, HALF_CIRCLE) || !distance(accuracy) {
        Err(GeoClueError::Invalid)
    } else if accuracy % NEGATIVE_ZERO > MAX_CITY_ACCURACY_METERS {
        Err(GeoClueError::Coarse)
    } else {
        Ok(
            GeoLocation {
                latitude_bits: latitude,
                longitude_bits: longitude,
                accuracy_bits: accuracy,
            },
        )
    }
}

impl GeoLocation {
    /// Takes a location whose coordinates are on the globe and whose accuracy is
    /// that of a city or better.
    pub fn new(latitude_bits: u64, longitude_bits: u64, accuracy_bits: u64) -> (location: Result<
        Self,
        GeoClueError,
    >)
        ensures
            location == located(latitude_bits, longitude_bits, accuracy_bits),
    {
        if latitude_bits % NEGATIVE_ZERO > NINETY || longitude_bits % NEGATIVE_ZERO > HALF_CIRCLE
            || (accuracy_bits >= INFINITY && accuracy_bits != NEGATIVE_ZERO) {
            return Err(GeoClueError::Invalid);
        }
        if accuracy_bits % NEGATIVE_ZERO > MAX_CITY_ACCURACY_METERS {
            return Err(GeoClueError::Coarse);
        }
        Ok(GeoLocation { latitude_bits, longitude_bits, accuracy_bits })
    }

    /// The latitude in degrees, as the bit pattern of a double.
    pub fn latitude_degrees(self) -> (bits: u64)
        ensures
            bits == self.latitude_bits,
    {
        self.latitude_bits
    }

    /// The longitude in degrees, as the bit pattern of a double.
    pub fn longitude_degrees(self) -> (bits: u64)
        ensures
            bits == self.longitude_bits,
    {
        self.longitude_bits
    }
}

/// What the client does, in this order.
#[derive(Clone, Copy, Debug, PartialEq, Eq, Structural)]
pub enum RequestStep {
    /// Connect to the session bus.
    Connect,
    /// Reach the manager.
    Manager,
    /// Ask for a client.
    GetClient,
    /// Reach the client.
    Client,
    /// Say who asks.
    SetDesktopId,
    /// Say how precise the answer is to be.
    SetAccuracy,
    Start,
    /// Look for a location, until there is one.
    Poll,
    /// Reach the location.
    Location,
    Latitude,
    Longitude,
    Accuracy,
    /// Stop the client; the answer stands, whether this works or not.
    Stop,
}

/// The step after one that worked.
pub open spec fn following(step: RequestStep) -> RequestStep {
    match step {
        RequestStep::Connect => RequestStep::Manager,
        RequestStep::Manager => RequestStep::GetClient,
        RequestStep::GetClient => RequestStep::Client,
        RequestStep::Client => RequestStep::SetDesktopId,
        RequestStep::SetDesktopId => RequestStep::SetAccuracy,
        RequestStep::SetAccuracy => RequestStep::Start,
        RequestStep::Start => RequestStep::Poll,
        RequestStep::Poll => RequestStep::Location,
        RequestStep::Location => RequestStep::Latitude,
        RequestStep::Latitude => RequestStep::Longitude,
        RequestStep::Longitude => RequestStep::Accuracy,
        RequestStep::Accuracy => RequestStep::Stop,
        RequestStep::Stop => RequestStep::Stop,
    }
}

/// What follows a step that failed, and why the request fails, where it does: a
/// client that was started is stopped first.
pub open spec fn failed(step: RequestStep) -> (Option<RequestStep>, Option<GeoClueError>) {
    match step {
        RequestStep::SetDesktopId | RequestStep::Start => (None, Some(GeoClueError::Denied)),
        RequestStep::Poll => (Some(RequestStep::Poll), None),
        RequestStep::Location
        | RequestStep::Latitude
        | RequestStep::Longitude
        | RequestStep::Accuracy => (Some(RequestStep::Stop), Some(GeoClueError::Unavailable)),
        RequestStep::Stop => (None, None),
        _ => (None, Some(GeoClueError::Unavailable)),
    }
}

/// The step after one that worked.
pub fn next_step(step: RequestStep) -> (next: RequestStep)
    ensures
        next == following(step),
{
    match step {
        RequestStep::Connect => RequestStep::Manager,
        RequestStep::Manager => RequestStep::GetClient,
        RequestStep::GetClient => RequestStep::Client,
        RequestStep::Client => RequestStep::SetDesktopId,
        RequestStep::SetDesktopId => RequestStep::SetAccuracy,
        RequestStep::SetAccuracy => RequestStep::Start,
        RequestStep::Start => RequestStep::Poll,
        RequestStep::Poll => RequestStep::Location,
        RequestStep::Location => RequestStep::Latitude,
        RequestStep::Latitude => RequestStep::Longitude,
        RequestStep::Longitude => RequestStep::Accuracy,
        RequestStep::Accuracy => RequestStep::Stop,
        RequestStep::Stop => RequestStep::Stop,
    }
}

/// What follows a step that failed.
pub fn step_failed(step: RequestStep) -> (outcome: (Option<RequestStep>, Option<GeoClueError>))
    ensures
        outcome == failed(step),
{
    match step {
        RequestStep::SetDesktopId | RequestStep::Start => (None, Some(GeoClueError::Denied)),
        RequestStep::Poll => (Some(RequestStep::Poll), None),
        RequestStep::Location
        | RequestStep::Latitude
        | RequestStep::Longitude
        | RequestStep::Accuracy => (Some(RequestStep::Stop), Some(GeoClueError::Unavailable)),
        RequestStep::Stop => (None, None),
        _ => (None, Some(GeoClueError::Unavailable)),
    }
}

/// Whether the client has a location, by the path of the one it names. A client
/// that could not be asked has none yet.
pub fn has_location(path: Option<&str>) -> (answer: bool)
    ensures
        answer == (path matches Some(path) && path@ != EMPTY_PATH@),
{
    match path {
        Some(path) => !same(path, EMPTY_PATH),
        None => false,
    }
}

/// The answer to a request, which may have taken too long.
pub fn within_time(answer: Option<Result<GeoLocation, GeoClueError>>) -> (result: Result<
    GeoLocation,
    GeoClueError,
>)
    ensures
        result == match answer {
            Some(answer) => answer,
            None => Err(GeoClueError::Timeout),
        },
{
    match answer {
        Some(answer) => answer,
        None => Err(GeoClueError::Timeout),
    }
}

/// Every location that is taken lies on the globe and is as precise as a city.
pub proof fn law_locations_are_valid(latitude: u64, longitude: u64, accuracy: u64)
    requires
        located(latitude, longitude, accuracy) is Ok,
    ensures
        within(latitude, NINETY),
        within(longitude, HALF_CIRCLE),
        accuracy <= MAX_CITY_ACCURACY_METERS || accuracy == NEGATIVE_ZERO,
{
}

/// A client that was started is stopped, whatever comes of it: from the first look
/// on, every failure leads to the next look or to the end of the client.
pub proof fn law_started_clients_are_stopped(step: RequestStep)
    requires
        step is Poll || step is Location || step is Latitude || step is Longitude
            || step is Accuracy,
    ensures
        failed(step).0 == Some(RequestStep::Stop) || failed(step).0 == Some(RequestStep::Poll),
{
}

/// A location is taken as it is where its latitude is at most ninety degrees from the
/// equator, its longitude at most a half circle from the meridian, and its accuracy at
/// most a hundred kilometers and not negative. One that is only coarser is called so;
/// any other is invalid.
pub proof fn law_locations_are_taken_as_they_are(latitude: u64, longitude: u64, accuracy: u64)
    ensures
        ({
            let sign = 0x8000_0000_0000_0000u64;
            let north = if latitude >= sign {
                latitude - sign
            } else {
                latitude as int
            };
            let east = if longitude >= sign {
                longitude - sign
            } else {
                longitude as int
            };
            let globe = north <= 0x4056_8000_0000_0000 && east <= 0x4066_8000_0000_0000;
            let found = located(latitude, longitude, accuracy);
            let precise = accuracy <= 0x40f8_6a00_0000_0000 || accuracy == sign;
            let finite = accuracy < 0x7ff0_0000_0000_0000 || accuracy == sign;
            &&& found is Ok <==> globe && precise
            &&& found == Err::<GeoLocation, GeoClueError>(GeoClueError::Coarse) <==> globe && finite
                && !precise
            &&& found == Err::<GeoLocation, GeoClueError>(GeoClueError::Invalid) <==> !globe
                || !finite
            &&& (found matches Ok(place) ==> place.latitude_bits == latitude && place.longitude_bits
                == longitude && place.accuracy_bits == accuracy)
        }),
{
}

/// The steps of a request come in one order: the service is reached before the client,
/// the client is told who asks and how precisely before it starts, and what the location
/// says is read before the client is stopped.
pub proof fn law_requests_take_their_steps_in_order()
    ensures
        ({
            let manager = following(RequestStep::Connect);
            let client = following(following(manager));
            let precise = following(following(client));
            let location = following(following(following(precise)));
            let read = following(following(following(location)));
            &&& manager == RequestStep::Manager
            &&& following(manager) == RequestStep::GetClient
            &&& client == RequestStep::Client
            &&& following(client) == RequestStep::SetDesktopId
            &&& precise == RequestStep::SetAccuracy
            &&& following(precise) == RequestStep::Start
            &&& following(following(precise)) == RequestStep::Poll
            &&& location == RequestStep::Location
            &&& following(location) == RequestStep::Latitude
            &&& following(following(location)) == RequestStep::Longitude
            &&& read == RequestStep::Accuracy
            &&& following(read) == RequestStep::Stop
            &&& following(RequestStep::Stop) == RequestStep::Stop
        }),
{
}

/// A request is denied where the client may not say who asks or may not start. A look
/// that found nothing is repeated, stopping may fail without harm, and every other failure
/// means that the service is not there.
pub proof fn law_failures_are_told_by_their_step(step: RequestStep)
    ensures
        failed(step).1 == Some(GeoClueError::Denied) <==> step == RequestStep::SetDesktopId || step
            == RequestStep::Start,
        failed(step).1 is None <==> step == RequestStep::Poll || step == RequestStep::Stop,
        failed(step).1 is Some ==> failed(step).1 == Some(GeoClueError::Denied) || failed(step).1
            == Some(GeoClueError::Unavailable),
        failed(step).0 == Some(RequestStep::Poll) <==> step == RequestStep::Poll,
        failed(step).0 == Some(RequestStep::Stop) <==> step == RequestStep::Location || step
            == RequestStep::Latitude || step == RequestStep::Longitude || step
            == RequestStep::Accuracy,
{
}

} // verus!
