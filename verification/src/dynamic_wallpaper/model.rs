//! What a dynamic wallpaper says of itself: its images, schedules, and
//! appearances.

use vstd::prelude::*;

use super::fraction::{whole_number_bits, INFINITY, NEGATIVE_ZERO, ONE};

verus! {

/// The bit pattern of `90.0`.
pub const NINETY: u64 = 0x4056_8000_0000_0000;

/// The bit pattern of `360.0`.
pub const FULL_CIRCLE: u64 = 0x4076_8000_0000_0000;

/// An image, by its position among the top-level images.
#[derive(Clone, Copy, Debug, PartialEq, Eq, Structural)]
pub struct ImageReference {
    pub position: usize,
}

impl ImageReference {
    pub fn from_position(position: usize) -> (reference: Self)
        ensures
            reference.position == position,
    {
        ImageReference { position }
    }

    pub fn position(self) -> (position: usize)
        ensures
            position == self.position,
    {
        self.position
    }
}

/// The identifier a container gives an image.
#[derive(Clone, Copy, Debug, PartialEq, Eq, Structural)]
pub struct HeifItemId {
    pub value: u32,
}

impl HeifItemId {
    pub fn new(value: u32) -> (id: Self)
        ensures
            id.value == value,
    {
        HeifItemId { value }
    }

    pub fn value(self) -> (value: u32)
        ensures
            value == self.value,
    {
        self.value
    }
}

/// The top-level images of a container, in container order.
#[derive(Debug)]
pub struct TopLevelImages {
    items: Vec<HeifItemId>,
}

impl View for TopLevelImages {
    type V = Seq<HeifItemId>;

    closed spec fn view(&self) -> Seq<HeifItemId> {
        self.items@
    }
}

impl TopLevelImages {
    pub fn new(items: Vec<HeifItemId>) -> (images: Self)
        ensures
            images@ == items@,
    {
        TopLevelImages { items }
    }

    pub fn len(&self) -> (count: usize)
        ensures
            count == self@.len(),
    {
        self.items.len()
    }

    /// The identifiers in container order.
    pub fn items(&self) -> (items: &Vec<HeifItemId>)
        ensures
            items@ == self@,
    {
        &self.items
    }

    /// The identifier of an image, if there is one at its position.
    pub fn resolve(&self, image: ImageReference) -> (id: Option<HeifItemId>)
        ensures
            id == if image.position < self@.len() {
                Some(self@[image.position as int])
            } else {
                None
            },
    {
        if image.position < self.items.len() {
            Some(self.items[image.position])
        } else {
            None
        }
    }
}

/// The images to show in a light and in a dark appearance.
#[derive(Clone, Copy, Debug, PartialEq, Eq, Structural)]
pub struct Appearance {
    pub light: ImageReference,
    pub dark: ImageReference,
}

/// The preferred appearance of a wallpaper that offers more than one.
#[derive(Clone, Copy, Debug, PartialEq, Eq, Structural)]
pub enum AppearancePreference {
    Automatic,
    Light,
    Dark,
}

impl AppearancePreference {
    pub open spec fn called(self) -> Seq<char> {
        match self {
            AppearancePreference::Automatic => "automatic"@,
            AppearancePreference::Light => "light"@,
            AppearancePreference::Dark => "dark"@,
        }
    }
}

/// A number in a property list: an integer, or the bit pattern of a double.
#[derive(Clone, Copy, Debug, PartialEq, Eq, Structural)]
pub enum Number {
    Integer(i128),
    Real(u64),
}

/// Why a value does not fit the model.
#[derive(Clone, Copy, Debug, PartialEq, Eq, Structural)]
pub enum ModelError {
    InvalidTime,
    InvalidPosition,
    EmptySchedule,
    DuplicateProperty(AppleProperty),
    MismatchedProperty(AppleProperty),
}

impl ModelError {
    /// The error as a sentence.
    pub fn message(self) -> (text: &'static str)
        ensures
            text@ == self.text(),
    {
        match self {
            ModelError::InvalidTime => "time is not in the half-open interval from 0 to 1",
            ModelError::InvalidPosition => "solar position is outside its domain",
            ModelError::EmptySchedule => "schedule has no points",
            ModelError::DuplicateProperty(_) => "property is declared more than once",
            ModelError::MismatchedProperty(_) => "property value is of another kind",
        }
    }

    pub open spec fn text(self) -> Seq<char> {
        match self {
            ModelError::InvalidTime => "time is not in the half-open interval from 0 to 1"@,
            ModelError::InvalidPosition => "solar position is outside its domain"@,
            ModelError::EmptySchedule => "schedule has no points"@,
            ModelError::DuplicateProperty(_) => "property is declared more than once"@,
            ModelError::MismatchedProperty(_) => "property value is of another kind"@,
        }
    }
}

/// Whether a pattern stands for a finite number.
pub open spec fn finite(bits: u64) -> bool {
    bits % NEGATIVE_ZERO < INFINITY
}

/// Whether a pattern stands for a finite number.
pub fn is_finite(bits: u64) -> (answer: bool)
    ensures
        answer == finite(bits),
{
    bits % NEGATIVE_ZERO < INFINITY
}

/// A moment as a fraction of the day, from zero up to but not including one.
#[derive(Clone, Copy, Debug, PartialEq, Eq, Structural)]
pub struct NormalizedTime {
    pub bits: u64,
}

/// The pattern of a number that is not negative and below `limit`, negative zero
/// counting as zero.
pub open spec fn below(number: Number, limit: u64) -> Option<u64> {
    match number {
        Number::Real(bits) => if bits == NEGATIVE_ZERO {
            Some(0)
        } else if bits < limit {
            Some(bits)
        } else {
            None
        },
        Number::Integer(integer) => if 0 <= integer <= 360 && super::fraction::whole_number(
            integer as int,
        ) < limit {
            Some(super::fraction::whole_number(integer as int) as u64)
        } else {
            None
        },
    }
}

/// The pattern of a number that is not negative and below `limit`.
fn bits_below(number: Number, limit: u64) -> (bits: Option<u64>)
    ensures
        bits == below(number, limit),
        bits matches Some(found) ==> found < limit || found == 0,
{
    match number {
        Number::Real(bits) => if bits == NEGATIVE_ZERO {
            Some(0)
        } else if bits < limit {
            Some(bits)
        } else {
            None
        },
        Number::Integer(integer) => {
            if integer < 0 || integer > 360 {
                return None;
            }
            let bits: u64 = whole_number_bits(integer as u16);
            if bits < limit {
                Some(bits)
            } else {
                None
            }
        },
    }
}

impl NormalizedTime {
    pub open spec fn wf(self) -> bool {
        self.bits < ONE
    }

    /// Takes a number from zero up to but not including one.
    pub fn new(number: Number) -> (time: Result<Self, ModelError>)
        ensures
            time == match below(number, ONE) {
                Some(bits) => Ok(NormalizedTime { bits }),
                None => Err(ModelError::InvalidTime),
            },
            time matches Ok(time) ==> time.wf(),
    {
        match bits_below(number, ONE) {
            Some(bits) => Ok(NormalizedTime { bits }),
            None => Err(ModelError::InvalidTime),
        }
    }
}

/// Where the sun stands: altitude above the horizon, and azimuth clockwise from
/// north, both in degrees as the bit patterns of doubles.
#[derive(Clone, Copy, Debug, PartialEq, Eq, Structural)]
pub struct SolarPosition {
    pub altitude_bits: u64,
    pub azimuth_bits: u64,
}

/// The pattern of an altitude between minus and plus ninety degrees.
pub open spec fn altitude_of(number: Number) -> Option<u64> {
    match number {
        Number::Real(bits) => if bits % NEGATIVE_ZERO <= NINETY {
            Some(bits)
        } else {
            None
        },
        Number::Integer(integer) => if 0 <= integer <= 90 {
            Some(super::fraction::whole_number(integer as int) as u64)
        } else if -90 <= integer < 0 {
            Some((NEGATIVE_ZERO + super::fraction::whole_number(-integer)) as u64)
        } else {
            None
        },
    }
}

impl SolarPosition {
    /// The altitude is at most ninety degrees up or down, and the azimuth less than a
    /// full circle.
    pub open spec fn wf(self) -> bool {
        self.altitude_bits % NEGATIVE_ZERO <= NINETY && self.azimuth_bits < FULL_CIRCLE
    }

    /// Takes an altitude between minus and plus ninety degrees, and an azimuth
    /// from zero up to but not including a full circle.
    pub fn new(altitude: Number, azimuth: Number) -> (position: Result<Self, ModelError>)
        ensures
            position == match (altitude_of(altitude), below(azimuth, FULL_CIRCLE)) {
                (Some(altitude_bits), Some(azimuth_bits)) => Ok(
                    SolarPosition { altitude_bits, azimuth_bits },
                ),
                _ => Err(ModelError::InvalidPosition),
            },
            position matches Ok(position) ==> position.wf(),
    {
        let altitude_bits: u64 = match altitude {
            Number::Real(bits) => if bits % NEGATIVE_ZERO <= NINETY {
                bits
            } else {
                return Err(ModelError::InvalidPosition);
            },
            Number::Integer(integer) => if 0 <= integer && integer <= 90 {
                whole_number_bits(integer as u16)
            } else if -90 <= integer && integer < 0 {
                NEGATIVE_ZERO + whole_number_bits((-integer) as u16)
            } else {
                return Err(ModelError::InvalidPosition);
            },
        };
        proof {
            if let Number::Integer(integer) = altitude {
                super::fraction::lemma_whole_numbers_to_ninety(
                    if integer < 0 {
                        -integer
                    } else {
                        integer as int
                    },
                );
            }
        }
        match bits_below(azimuth, FULL_CIRCLE) {
            Some(azimuth_bits) => Ok(SolarPosition { altitude_bits, azimuth_bits }),
            None => Err(ModelError::InvalidPosition),
        }
    }
}

/// An image and the time of day it is meant for.
#[derive(Clone, Copy, Debug, PartialEq, Eq, Structural)]
pub struct TimePoint {
    pub image: ImageReference,
    pub time: NormalizedTime,
}

/// An image and the solar position it is meant for.
#[derive(Clone, Copy, Debug, PartialEq, Eq, Structural)]
pub struct SolarPoint {
    pub image: ImageReference,
    pub position: SolarPosition,
}

/// The points of a schedule in metadata order, at least one of them, and an
/// embedded appearance.
#[derive(Debug)]
pub struct Schedule<T> {
    points: Vec<T>,
    appearance: Option<Appearance>,
}

impl<T> Schedule<T> {
    #[verifier::type_invariant]
    closed spec fn nonempty(self) -> bool {
        self.points@.len() > 0
    }

    /// The points in metadata order.
    pub closed spec fn listed(&self) -> Seq<T> {
        self.points@
    }

    /// The embedded appearance.
    pub closed spec fn embedded(&self) -> Option<Appearance> {
        self.appearance
    }

    pub fn new(points: Vec<T>, appearance: Option<Appearance>) -> (schedule: Result<
        Self,
        ModelError,
    >)
        ensures
            points@.len() == 0 ==> schedule == Err::<Self, ModelError>(ModelError::EmptySchedule),
            points@.len() > 0 ==> (schedule matches Ok(made) && made.listed() == points@
                && made.embedded() == appearance),
    {
        if points.len() == 0 {
            return Err(ModelError::EmptySchedule);
        }
        Ok(Schedule { points, appearance })
    }

    pub fn points(&self) -> (points: &Vec<T>)
        ensures
            points@ == self.listed(),
            points@.len() > 0,
    {
        proof {
            use_type_invariant(self);
        }
        &self.points
    }

    pub fn appearance(&self) -> (appearance: Option<Appearance>)
        ensures
            appearance == self.embedded(),
    {
        self.appearance
    }
}

/// The properties Apple's wallpapers carry.
#[derive(Clone, Copy, Debug, PartialEq, Eq, Structural)]
pub enum AppleProperty {
    Time,
    Solar,
    Appearance,
}

/// The value of a property.
#[derive(Debug)]
pub enum PropertyValue {
    Time(Schedule<TimePoint>),
    Solar(Schedule<SolarPoint>),
    Appearance(Appearance),
}

/// A property that may be declared once.
#[derive(Debug)]
pub enum Slot<T> {
    Absent,
    Present(T),
    /// Declared more than once, which invalidates it for good.
    Conflicting,
}

impl<T> Slot<T> {
    /// Whether the property was declared at all.
    pub open spec fn declared(self) -> bool {
        !(self is Absent)
    }

    /// The slot after one more declaration.
    pub open spec fn with(self, value: T) -> Self {
        match self {
            Slot::Absent => Slot::Present(value),
            _ => Slot::Conflicting,
        }
    }

    fn declare(&mut self, value: T) -> (fresh: bool)
        ensures
            *final(self) == old(self).with(value),
            fresh == !old(self).declared(),
    {
        match self {
            Slot::Absent => {
                *self = Slot::Present(value);
                true
            },
            _ => {
                *self = Slot::Conflicting;
                false
            },
        }
    }

    fn value(&self) -> (value: Option<&T>)
        ensures
            value == match *self {
                Slot::Present(found) => Some(&found),
                _ => None,
            },
    {
        match self {
            Slot::Present(value) => Some(value),
            _ => None,
        }
    }
}

/// The properties a wallpaper declares.
#[derive(Debug)]
pub struct Metadata {
    pub time_slot: Slot<Schedule<TimePoint>>,
    pub solar_slot: Slot<Schedule<SolarPoint>>,
    pub appearance_slot: Slot<Appearance>,
}

impl Default for Metadata {
    fn default() -> (metadata: Self)
        ensures
            metadata == (Metadata {
                time_slot: Slot::Absent,
                solar_slot: Slot::Absent,
                appearance_slot: Slot::Absent,
            }),
    {
        Metadata {
            time_slot: Slot::Absent,
            solar_slot: Slot::Absent,
            appearance_slot: Slot::Absent,
        }
    }
}

/// The metadata after one more declaration. A value of another kind changes
/// nothing.
pub open spec fn declared(metadata: Metadata, name: AppleProperty, value: PropertyValue) -> (
    Metadata,
    Result<(), ModelError>,
) {
    match (name, value) {
        (AppleProperty::Time, PropertyValue::Time(schedule)) => (
            Metadata { time_slot: metadata.time_slot.with(schedule), ..metadata },
            fresh(!metadata.time_slot.declared(), name),
        ),
        (AppleProperty::Solar, PropertyValue::Solar(schedule)) => (
            Metadata { solar_slot: metadata.solar_slot.with(schedule), ..metadata },
            fresh(!metadata.solar_slot.declared(), name),
        ),
        (AppleProperty::Appearance, PropertyValue::Appearance(appearance)) => (
            Metadata { appearance_slot: metadata.appearance_slot.with(appearance), ..metadata },
            fresh(!metadata.appearance_slot.declared(), name),
        ),
        _ => (metadata, Err(ModelError::MismatchedProperty(name))),
    }
}

/// Success for a first declaration, an error for a repeated one.
pub open spec fn fresh(first: bool, name: AppleProperty) -> Result<(), ModelError> {
    if first {
        Ok(())
    } else {
        Err(ModelError::DuplicateProperty(name))
    }
}

impl Metadata {
    /// Declares a property. A second declaration invalidates the property and
    /// no other.
    pub fn insert(&mut self, name: AppleProperty, value: PropertyValue) -> (result: Result<
        (),
        ModelError,
    >)
        ensures
            (*final(self), result) == declared(*old(self), name, value),
    {
        let first = match (name, value) {
            (AppleProperty::Time, PropertyValue::Time(schedule)) => self.time_slot.declare(
                schedule,
            ),
            (AppleProperty::Solar, PropertyValue::Solar(schedule)) => self.solar_slot.declare(
                schedule,
            ),
            (AppleProperty::Appearance, PropertyValue::Appearance(appearance)) =>
                self.appearance_slot.declare(appearance),
            _ => {
                return Err(ModelError::MismatchedProperty(name));
            },
        };
        if first {
            Ok(())
        } else {
            Err(ModelError::DuplicateProperty(name))
        }
    }

    pub fn time(&self) -> (schedule: Option<&Schedule<TimePoint>>)
        ensures
            schedule == match self.time_slot {
                Slot::Present(found) => Some(&found),
                _ => None,
            },
    {
        self.time_slot.value()
    }

    pub fn solar(&self) -> (schedule: Option<&Schedule<SolarPoint>>)
        ensures
            schedule == match self.solar_slot {
                Slot::Present(found) => Some(&found),
                _ => None,
            },
    {
        self.solar_slot.value()
    }

    pub fn appearance(&self) -> (appearance: Option<Appearance>)
        ensures
            appearance == match self.appearance_slot {
                Slot::Present(found) => Some(found),
                _ => None,
            },
    {
        match self.appearance_slot {
            Slot::Present(appearance) => Some(appearance),
            _ => None,
        }
    }
}

/// What a wallpaper shows: a schedule, one image, or its primary image.
#[derive(Debug)]
pub enum Selection<'a> {
    Time(&'a Schedule<TimePoint>),
    Static(ImageReference),
    Primary,
}

/// The appearance a wallpaper offers where it has no schedule over the day: its
/// own, or else the one embedded in its solar schedule.
pub open spec fn fallback(metadata: Metadata) -> Option<Appearance> {
    match metadata.appearance_slot {
        Slot::Present(appearance) => Some(appearance),
        _ => match metadata.solar_slot {
            Slot::Present(schedule) => schedule.embedded(),
            _ => None,
        },
    }
}

/// The image of an appearance that is preferred; the light one where nothing is.
pub open spec fn preferred(appearance: Appearance, preference: AppearancePreference) -> ImageReference {
    match preference {
        AppearancePreference::Dark => appearance.dark,
        _ => appearance.light,
    }
}

/// What a wallpaper shows where the position of the sun is not known.
pub open spec fn selection(metadata: Metadata, preference: AppearancePreference) -> Selection<'static> {
    match metadata.time_slot {
        Slot::Present(schedule) => Selection::Time(&schedule),
        _ => match fallback(metadata) {
            Some(appearance) => Selection::Static(preferred(appearance, preference)),
            None => Selection::Primary,
        },
    }
}

impl Metadata {
    /// What the wallpaper shows where the position of the sun is not known: its
    /// schedule over the day, or else the preferred image of an appearance, or
    /// else its primary image.
    pub fn select(&self, preference: AppearancePreference) -> (selected: Selection<'_>)
        ensures
            selected == selection(*self, preference),
    {
        if let Some(schedule) = self.time() {
            return Selection::Time(schedule);
        }
        let appearance = match self.appearance() {
            Some(appearance) => Some(appearance),
            None => match self.solar() {
                Some(schedule) => schedule.appearance(),
                None => None,
            },
        };
        match appearance {
            Some(appearance) => Selection::Static(
                match preference {
                    AppearancePreference::Dark => appearance.dark,
                    _ => appearance.light,
                },
            ),
            None => Selection::Primary,
        }
    }
}

/// Where the sun stands never decides what is shown: of a solar schedule only the
/// embedded appearance counts.
pub proof fn law_solar_positions_are_never_selected(
    metadata: Metadata,
    solar: Slot<Schedule<SolarPoint>>,
    preference: AppearancePreference,
)
    requires
        fallback(metadata) == fallback((Metadata { solar_slot: solar, ..metadata })),
    ensures
        selection(metadata, preference) == selection(
            (Metadata { solar_slot: solar, ..metadata }),
            preference,
        ),
{
}

/// A property that was declared twice stays invalid whatever is declared later,
/// and declaring one property leaves the others alone.
pub proof fn law_conflicts_are_final_and_local(
    metadata: Metadata,
    name: AppleProperty,
    value: PropertyValue,
)
    ensures
        metadata.time_slot is Conflicting ==> declared(metadata, name, value).0.time_slot
            is Conflicting,
        metadata.solar_slot is Conflicting ==> declared(metadata, name, value).0.solar_slot
            is Conflicting,
        metadata.appearance_slot is Conflicting ==> declared(
            metadata,
            name,
            value,
        ).0.appearance_slot is Conflicting,
        name != AppleProperty::Time ==> declared(metadata, name, value).0.time_slot
            == metadata.time_slot,
        name != AppleProperty::Solar ==> declared(metadata, name, value).0.solar_slot
            == metadata.solar_slot,
        name != AppleProperty::Appearance ==> declared(metadata, name, value).0.appearance_slot
            == metadata.appearance_slot,
{
}

/// A schedule over the day is shown wherever there is one. Without it the appearance
/// decides, the wallpaper's own before that of its solar schedule: its dark image where
/// dark is preferred, and its light one otherwise. Without either the primary image is
/// shown.
pub proof fn law_the_preference_chooses_between_light_and_dark(
    metadata: Metadata,
    preference: AppearancePreference,
    image: ImageReference,
)
    ensures
        selection(metadata, preference) is Time <==> metadata.time_slot is Present,
        metadata.time_slot matches Slot::Present(schedule) ==> selection(metadata, preference)
            == Selection::Time(&schedule),
        selection(metadata, preference) == Selection::Static(image) <==> !(metadata.time_slot
            is Present) && ((metadata.appearance_slot matches Slot::Present(own) && image == if preference
            == AppearancePreference::Dark {
            own.dark
        } else {
            own.light
        }) || (!(metadata.appearance_slot is Present) && (metadata.solar_slot
            matches Slot::Present(schedule) && (schedule.embedded() matches Some(embedded) && image
            == if preference == AppearancePreference::Dark {
            embedded.dark
        } else {
            embedded.light
        })))),
        selection(metadata, preference) is Primary <==> !(metadata.time_slot is Present)
            && !(metadata.appearance_slot is Present) && !(metadata.solar_slot
            matches Slot::Present(schedule) && schedule.embedded() is Some),
{
}

/// A property that is declared once has the value it was declared with; declared again it
/// has none, and the declaration is refused. A value of another kind is refused and
/// changes nothing.
pub proof fn law_a_property_is_declared_once(
    metadata: Metadata,
    times: Schedule<TimePoint>,
    positions: Schedule<SolarPoint>,
    appearance: Appearance,
    name: AppleProperty,
)
    ensures
        metadata.time_slot is Absent ==> declared(
            metadata,
            AppleProperty::Time,
            PropertyValue::Time(times),
        ).0.time_slot == Slot::Present(times),
        metadata.solar_slot is Absent ==> declared(
            metadata,
            AppleProperty::Solar,
            PropertyValue::Solar(positions),
        ).0.solar_slot == Slot::Present(positions),
        metadata.appearance_slot is Absent ==> declared(
            metadata,
            AppleProperty::Appearance,
            PropertyValue::Appearance(appearance),
        ).0.appearance_slot == Slot::Present(appearance),
        !(metadata.time_slot is Absent) ==> declared(
            metadata,
            AppleProperty::Time,
            PropertyValue::Time(times),
        ).0.time_slot is Conflicting,
        !(metadata.solar_slot is Absent) ==> declared(
            metadata,
            AppleProperty::Solar,
            PropertyValue::Solar(positions),
        ).0.solar_slot is Conflicting,
        !(metadata.appearance_slot is Absent) ==> declared(
            metadata,
            AppleProperty::Appearance,
            PropertyValue::Appearance(appearance),
        ).0.appearance_slot is Conflicting,
        declared(metadata, AppleProperty::Time, PropertyValue::Time(times)).1 is Ok
            <==> metadata.time_slot is Absent,
        declared(metadata, AppleProperty::Solar, PropertyValue::Solar(positions)).1 is Ok
            <==> metadata.solar_slot is Absent,
        declared(metadata, AppleProperty::Appearance, PropertyValue::Appearance(appearance)).1
            is Ok <==> metadata.appearance_slot is Absent,
        name != AppleProperty::Time ==> declared(metadata, name, PropertyValue::Time(times)) == (
            metadata,
            Err::<(), ModelError>(ModelError::MismatchedProperty(name)),
        ),
        name != AppleProperty::Solar ==> declared(metadata, name, PropertyValue::Solar(positions))
            == (metadata, Err::<(), ModelError>(ModelError::MismatchedProperty(name))),
        name != AppleProperty::Appearance ==> declared(
            metadata,
            name,
            PropertyValue::Appearance(appearance),
        ) == (metadata, Err::<(), ModelError>(ModelError::MismatchedProperty(name))),
{
}

/// A time of day is from zero up to but not including one, an azimuth from zero up to but
/// not including a full circle, and an altitude at most ninety degrees up or down. A
/// double is kept as it is, but for a zero with a minus sign; an integer becomes the double
/// of its value.
pub proof fn law_numbers_keep_their_value(bits: u64, integer: i128)
    ensures
        below(Number::Real(bits), ONE) is Some <==> bits < 0x3ff0_0000_0000_0000 || bits
            == 0x8000_0000_0000_0000,
        below(Number::Real(bits), FULL_CIRCLE) is Some <==> bits < 0x4076_8000_0000_0000 || bits
            == 0x8000_0000_0000_0000,
        below(Number::Real(bits), ONE) matches Some(kept) ==> kept == if bits
            == 0x8000_0000_0000_0000 {
            0
        } else {
            bits
        },
        below(Number::Real(bits), FULL_CIRCLE) matches Some(kept) ==> kept == if bits
            == 0x8000_0000_0000_0000 {
            0
        } else {
            bits
        },
        below(Number::Integer(integer), ONE) is Some <==> integer == 0,
        below(Number::Integer(integer), FULL_CIRCLE) is Some <==> 0 <= integer < 360,
        below(Number::Integer(integer), FULL_CIRCLE) matches Some(kept) ==> super::fraction::stands_for(
            kept,
            integer as int,
        ),
        below(Number::Integer(0), ONE) == Some(0u64),
        altitude_of(Number::Real(bits)) is Some <==> bits <= 0x4056_8000_0000_0000
            || 0x8000_0000_0000_0000 <= bits <= 0xc056_8000_0000_0000,
        altitude_of(Number::Real(bits)) matches Some(kept) ==> kept == bits,
        altitude_of(Number::Integer(integer)) is Some <==> -90 <= integer <= 90,
        altitude_of(Number::Integer(integer)) matches Some(kept) ==> if integer >= 0 {
            super::fraction::stands_for(kept, integer as int)
        } else {
            kept >= 0x8000_0000_0000_0000 && super::fraction::stands_for(
                (kept - 0x8000_0000_0000_0000) as u64,
                -integer,
            )
        },
{
    if 0 <= integer <= 360 {
        super::fraction::law_whole_numbers_have_their_pattern(integer as int);
    } else if -90 <= integer < 0 {
        super::fraction::law_whole_numbers_have_their_pattern(-integer);
    }
    super::fraction::law_whole_numbers_have_their_pattern(360);
    super::fraction::law_whole_numbers_have_their_pattern(1);
    super::fraction::law_whole_numbers_have_their_pattern(0);
    if 0 <= integer < 360 {
        super::fraction::lemma_whole_numbers_grow(integer as int, 360);
    }
    if 1 < integer <= 360 {
        super::fraction::lemma_whole_numbers_grow(1, integer as int);
    }
    super::fraction::lemma_known_patterns();
}

/// A pattern stands for a finite number where its magnitude is below that of infinity,
/// whatever its sign.
pub proof fn law_finite_numbers_lie_below_infinity(bits: u64)
    ensures
        finite(bits) <==> bits < 0x7ff0_0000_0000_0000 || 0x8000_0000_0000_0000 <= bits
            < 0xfff0_0000_0000_0000,
{
}

} // verus!
