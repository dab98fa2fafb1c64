//! Apple desktop properties inside XMP metadata.
//!
//! A property is an attribute or an element in Apple's desktop namespace whose
//! value is a Base64-encoded property list.

use vstd::prelude::*;

use base64::Engine;

use super::heic::{Error, Fault, Limits};
use super::xml::{
    next_event, open_document, read_tag, AttributeModel, NameModel, Token, XmlAttribute, XmlEvent,
    XmlName, XmlTag,
};
use crate::text::{is_ascii_space, reserve_text, same, utf8_length};

verus! {

/// The namespace of Apple's desktop properties.
pub const APPLE_DESKTOP_NAMESPACE: &'static str = "http://ns.apple.com/namespace/1.0/";

/// The properties a wallpaper may carry.
#[derive(Clone, Copy, Debug, Eq, PartialEq, Structural)]
pub enum PropertyName {
    H24,
    Solar,
    Apr,
}

// ---------------------------------------------------------------------------
// Model
// ---------------------------------------------------------------------------

/// The properties found so far, each with its property list.
pub type Found = Seq<(PropertyName, Seq<u8>)>;

/// The property a name stands for, if any.
pub open spec fn property_of(name: NameModel) -> Option<PropertyName> {
    if name.namespace != Some(APPLE_DESKTOP_NAMESPACE@) {
        None
    } else if name.local == "h24"@ {
        Some(PropertyName::H24)
    } else if name.local == "solar"@ {
        Some(PropertyName::Solar)
    } else if name.local == "apr"@ {
        Some(PropertyName::Apr)
    } else {
        None
    }
}

/// How `base64` decodes a text in the standard alphabet with padding: the bytes,
/// or the description of its error.
pub uninterp spec fn base64_decoded(text: Seq<char>) -> Result<Seq<u8>, Seq<char>>;

/// What a decoded value comes to.
pub open spec fn value_judged(decoded: Result<Seq<u8>, Seq<char>>, limits: Limits) -> Result<
    Seq<u8>,
    Fault,
> {
    match decoded {
        Err(text) => Err(Fault::Metadata("invalid Base64 property: "@ + text)),
        Ok(plist) => if plist.len() > limits.max_plist_bytes {
            Err(Fault::Limit("property list size"@))
        } else {
            Ok(plist)
        },
    }
}

/// The property list a value encodes. Whitespace does not count, and a value
/// that could not decode within the limit is refused undecoded.
pub open spec fn value_decoded(value: Seq<char>, limits: Limits) -> Result<Seq<u8>, Fault> {
    let compact = crate::text::without_spaces(value);
    let groups = (limits.max_plist_bytes + 2) / 3;
    if limits.max_plist_bytes + 2 > usize::MAX || 4 * groups > usize::MAX
        || vstd::utf8::encode_utf8(compact).len() > 4 * groups {
        Err(Fault::Limit("property list size"@))
    } else {
        value_judged(base64_decoded(compact), limits)
    }
}

/// The properties among `attributes`, after `found`.
pub open spec fn attributes_found(
    attributes: Seq<AttributeModel>,
    found: Found,
    limits: Limits,
) -> Result<Found, Fault>
    decreases attributes.len(),
{
    if attributes.len() == 0 {
        Ok(found)
    } else {
        match attributes_found(attributes.drop_last(), found, limits) {
            Err(fault) => Err(fault),
            Ok(before) => match property_of(attributes.last().name) {
                None => Ok(before),
                Some(name) => match attributes.last().value {
                    Err(text) => Err(Fault::Metadata(text)),
                    Ok(value) => match value_decoded(value, limits) {
                        Err(fault) => Err(fault),
                        Ok(plist) => Ok(before.push((name, plist))),
                    },
                },
            },
        }
    }
}

/// The properties a tag carries as attributes, after `found`.
pub open spec fn tag_found(
    attributes: Seq<AttributeModel>,
    malformed: Option<Seq<char>>,
    found: Found,
    limits: Limits,
) -> Result<Found, Fault> {
    match attributes_found(attributes, found, limits) {
        Err(fault) => Err(fault),
        Ok(all) => match malformed {
            Some(text) => Err(Fault::Metadata(text)),
            None => Ok(all),
        },
    }
}

/// A property element whose text is being collected.
pub struct ActiveModel {
    pub name: PropertyName,
    pub depth: nat,
    pub text: Seq<char>,
}

/// Where in the document a reader stands.
#[verifier::ext_equal]
pub struct Position {
    pub depth: nat,
    pub active: Option<ActiveModel>,
    pub found: Found,
}

/// What an event is, with the parts of a tag read.
pub enum Step {
    Start(NameModel, Seq<AttributeModel>, Option<Seq<char>>),
    Empty(NameModel, Seq<AttributeModel>, Option<Seq<char>>),
    Other(Token),
}

/// The event of a document after `read` events, its tag read in the scope it
/// opens.
pub open spec fn step_of(bytes: Seq<u8>, bindings: nat, read: nat, token: Token) -> Step {
    let attributes = |tag: Seq<char>|
        super::xml::attributes_from(bytes, bindings, read, tag, 0, Seq::empty());
    match token {
        Token::Start(tag) => Step::Start(
            super::xml::xml_tag(bytes, bindings, read, tag),
            attributes(tag).0,
            attributes(tag).1,
        ),
        Token::Empty(tag) => Step::Empty(
            super::xml::xml_tag(bytes, bindings, read, tag),
            attributes(tag).0,
            attributes(tag).1,
        ),
        _ => Step::Other(token),
    }
}

/// Where one event leads.
pub open spec fn stepped(position: Position, step: Step, limits: Limits) -> Result<
    Position,
    Fault,
> {
    match step {
        Step::Start(name, attributes, malformed) => if position.depth + 1 > limits.max_xml_depth {
            Err(Fault::Limit("XMP nesting depth"@))
        } else if position.active is Some {
            Err(Fault::Metadata("nested markup in Apple property"@))
        } else {
            match tag_found(attributes, malformed, position.found, limits) {
                Err(fault) => Err(fault),
                Ok(found) => Ok(
                    Position {
                        depth: position.depth + 1,
                        active: match property_of(name) {
                            Some(name) => Some(
                                ActiveModel {
                                    name,
                                    depth: position.depth + 1,
                                    text: Seq::empty(),
                                },
                            ),
                            None => None,
                        },
                        found,
                    },
                ),
            }
        },
        Step::Empty(name, attributes, malformed) => if position.depth + 1 > limits.max_xml_depth {
            Err(Fault::Limit("XMP nesting depth"@))
        } else if position.active is Some {
            Err(Fault::Metadata("nested markup in Apple property"@))
        } else {
            match tag_found(attributes, malformed, position.found, limits) {
                Err(fault) => Err(fault),
                Ok(found) => match property_of(name) {
                    None => Ok(Position { found, ..position }),
                    Some(name) => match value_decoded(Seq::empty(), limits) {
                        Err(fault) => Err(fault),
                        Ok(plist) => Ok(Position { found: found.push((name, plist)), ..position }),
                    },
                },
            }
        },
        Step::Other(Token::End) => {
            let closed = match position.active {
                Some(active) => if active.depth == position.depth {
                    match value_decoded(active.text, limits) {
                        Err(fault) => Err(fault),
                        Ok(plist) => Ok(
                            Position {
                                active: None,
                                found: position.found.push((active.name, plist)),
                                ..position
                            },
                        ),
                    }
                } else {
                    Ok(position)
                },
                None => Ok(position),
            };
            match closed {
                Err(fault) => Err(fault),
                Ok(inner) => if inner.depth == 0 {
                    Err(Fault::Metadata("unbalanced XMP"@))
                } else {
                    Ok(Position { depth: (inner.depth - 1) as nat, ..inner })
                },
            }
        },
        Step::Other(Token::DocType) => Err(Fault::Metadata("XMP DTD is not allowed"@)),
        Step::Other(token) => collected(position, token),
    }
}

/// Where an event other than a tag leads. It only matters inside a property.
pub open spec fn collected(position: Position, token: Token) -> Result<Position, Fault> {
    match position.active {
        None => Ok(position),
        Some(active) => match token {
            Token::Text(text) | Token::Data(text) => Ok(
                Position {
                    active: Some(ActiveModel { text: active.text + text, ..active }),
                    ..position
                },
            ),
            Token::Reference(_, Err(text)) => Err(Fault::Metadata(text)),
            Token::Reference(_, Ok(None)) => Err(Fault::Metadata("entity in Apple property"@)),
            Token::Reference(_, Ok(Some(character))) => Ok(
                Position {
                    active: Some(ActiveModel { text: active.text.push(character), ..active }),
                    ..position
                },
            ),
            Token::Comment | Token::Instruction => Err(
                Fault::Metadata("markup in Apple property"@),
            ),
            _ => Ok(position),
        },
    }
}

/// The properties of a document, from `position` after `read` events on.
pub open spec fn parsed_from(
    bytes: Seq<u8>,
    limits: Limits,
    read: nat,
    position: Position,
) -> Result<Found, Fault>
    decreases limits.max_xml_events - read,
{
    let bindings = limits.max_xml_events as nat;
    if read + 1 > limits.max_xml_events {
        Err(Fault::Limit("XMP event count"@))
    } else {
        match super::xml::xml_event(bytes, bindings, read) {
            Err(text) => Err(Fault::Metadata(text)),
            Ok(Token::Eof) => if position.depth != 0 || position.active is Some {
                Err(Fault::Metadata("unbalanced XMP"@))
            } else {
                Ok(position.found)
            },
            Ok(token) => match stepped(
                position,
                step_of(bytes, bindings, read + 1, token),
                limits,
            ) {
                Err(fault) => Err(fault),
                Ok(next) => parsed_from(bytes, limits, read + 1, next),
            },
        }
    }
}

/// The properties of a whole document, in document order.
pub open spec fn parsed(bytes: Seq<u8>, limits: Limits) -> Result<Found, Fault> {
    parsed_from(bytes, limits, 0, Position { depth: 0, active: None, found: Seq::empty() })
}

// ---------------------------------------------------------------------------
// Memory
// ---------------------------------------------------------------------------

/// The fault of a text there is no room for.
pub open spec fn text_refused() -> Fault {
    Fault::Limit("metadata text"@)
}

/// The fault of a property there is no room for.
pub open spec fn entry_refused() -> Fault {
    Fault::Limit("property count"@)
}

/// The reservations made for a text, each by the fault of its refusal. Nothing is
/// reserved for an empty text.
pub open spec fn text_requests(text: Seq<char>) -> Seq<Fault> {
    if text.len() == 0 {
        Seq::empty()
    } else {
        seq![text_refused()]
    }
}

/// The reservations made for a property with this value.
pub open spec fn property_requests(value: Seq<char>, limits: Limits) -> Seq<Fault> {
    if value_decoded(value, limits) is Ok {
        text_requests(value).push(entry_refused())
    } else {
        text_requests(value)
    }
}

/// The reservations made for one attribute.
pub open spec fn attribute_requests(attribute: AttributeModel, limits: Limits) -> Seq<Fault> {
    match (property_of(attribute.name), attribute.value) {
        (Some(_), Ok(value)) => property_requests(value, limits),
        _ => Seq::empty(),
    }
}

/// The reservations made for the properties among `attributes`, up to the first
/// fault.
pub open spec fn attributes_requests(
    attributes: Seq<AttributeModel>,
    found: Found,
    limits: Limits,
) -> Seq<Fault>
    decreases attributes.len(),
{
    if attributes.len() == 0 {
        Seq::empty()
    } else {
        let before = attributes_requests(attributes.drop_last(), found, limits);
        if attributes_found(attributes.drop_last(), found, limits) is Ok {
            before + attribute_requests(attributes.last(), limits)
        } else {
            before
        }
    }
}

/// The reservations made for one event.
pub open spec fn step_requests(position: Position, step: Step, limits: Limits) -> Seq<Fault> {
    match step {
        Step::Start(_, attributes, _) => if position.depth + 1 > limits.max_xml_depth
            || position.active is Some {
            Seq::empty()
        } else {
            attributes_requests(attributes, position.found, limits)
        },
        Step::Empty(name, attributes, malformed) => if position.depth + 1 > limits.max_xml_depth
            || position.active is Some {
            Seq::empty()
        } else if property_of(name) is Some && tag_found(
            attributes,
            malformed,
            position.found,
            limits,
        ) is Ok {
            attributes_requests(attributes, position.found, limits) + property_requests(
                Seq::empty(),
                limits,
            )
        } else {
            attributes_requests(attributes, position.found, limits)
        },
        Step::Other(Token::End) => match position.active {
            Some(active) => if active.depth == position.depth {
                property_requests(active.text, limits)
            } else {
                Seq::empty()
            },
            None => Seq::empty(),
        },
        Step::Other(token) => collected_requests(position, token),
    }
}

/// The reservations made for an event other than a tag.
pub open spec fn collected_requests(position: Position, token: Token) -> Seq<Fault> {
    match token {
        Token::Text(text) | Token::Data(text) => if position.active is Some {
            text_requests(text)
        } else {
            Seq::empty()
        },
        Token::Reference(_, Ok(Some(_))) => if position.active is Some {
            seq![text_refused()]
        } else {
            Seq::empty()
        },
        _ => Seq::empty(),
    }
}

/// The reservations made from `position` after `read` events on, up to the end of
/// the document or the first fault.
pub open spec fn requests_from(
    bytes: Seq<u8>,
    limits: Limits,
    read: nat,
    position: Position,
) -> Seq<Fault>
    decreases limits.max_xml_events - read,
{
    let bindings = limits.max_xml_events as nat;
    if read + 1 > limits.max_xml_events {
        Seq::empty()
    } else {
        match super::xml::xml_event(bytes, bindings, read) {
            Err(_) => Seq::empty(),
            Ok(Token::Eof) => Seq::empty(),
            Ok(token) => {
                let step = step_of(bytes, bindings, read + 1, token);
                match stepped(position, step, limits) {
                    Err(_) => step_requests(position, step, limits),
                    Ok(next) => step_requests(position, step, limits) + requests_from(
                        bytes,
                        limits,
                        read + 1,
                        next,
                    ),
                }
            },
        }
    }
}

/// The reservations made for a whole document, in order.
pub open spec fn requests(bytes: Seq<u8>, limits: Limits) -> Seq<Fault> {
    requests_from(bytes, limits, 0, Position { depth: 0, active: None, found: Seq::empty() })
}

/// What comes out where the first `granted` reservations are granted and no more:
/// the fault of the next one, or what is expected where there is none.
pub open spec fn granting<M>(
    expected: Result<M, Fault>,
    requests: Seq<Fault>,
    granted: nat,
) -> Result<M, Fault> {
    if granted < requests.len() {
        Err(requests[granted as int])
    } else {
        expected
    }
}

/// Whether a result is the expected one, or the fault of a reservation that is
/// made on the way and was refused.
pub open spec fn agrees<M>(
    result: Result<M, Fault>,
    expected: Result<M, Fault>,
    requests: Seq<Fault>,
) -> bool {
    result == expected || (result matches Err(fault) && requests.contains(fault))
}

/// Where room for metadata comes from: the machine, or a number of reservations
/// that are granted before one is refused.
pub struct Memory {
    left: Option<usize>,
    granted: Ghost<nat>,
}

impl Memory {
    /// How many reservations are still granted, where that is known.
    pub closed spec fn left(&self) -> Option<nat> {
        match self.left {
            Some(left) => Some(left as nat),
            None => None,
        }
    }

    /// How many reservations were granted.
    pub closed spec fn granted(&self) -> nat {
        self.granted@
    }

    /// Whether `count` reservations were granted since, and the next one was
    /// refused or not asked for.
    pub open spec fn went(self, after: Memory, count: int, refused: bool) -> bool {
        &&& count >= 0
        &&& after.granted() == self.granted() + count
        &&& match self.left() {
            None => after.left() is None,
            Some(left) => {
                &&& count <= left
                &&& after.left() == Some((left - count) as nat)
                &&& refused ==> left == count
            },
        }
    }

    /// Whether `result` is what is expected where `requests` are made on the way:
    /// all of them were granted, or the fault is that of the first refused.
    pub open spec fn served<M>(
        self,
        after: Memory,
        result: Result<M, Fault>,
        expected: Result<M, Fault>,
        requests: Seq<Fault>,
    ) -> bool {
        let count = after.granted() - self.granted();
        &&& count <= requests.len()
        &&& self.went(after, count, count < requests.len())
        &&& result == granting(expected, requests, count as nat)
    }

    /// The machine's memory.
    pub fn machine() -> (memory: Self)
        ensures
            memory.left() is None,
            memory.granted() == 0,
    {
        Memory { left: None, granted: Ghost(0) }
    }

    /// Room for so many reservations and no more.
    pub fn given(reservations: usize) -> (memory: Self)
        ensures
            memory.left() == Some(reservations as nat),
            memory.granted() == 0,
    {
        Memory { left: Some(reservations), granted: Ghost(0) }
    }

    /// Reserves room for more text.
    fn text(&mut self, buffer: &mut String, length: usize) -> (reserved: bool)
        ensures
            final(buffer)@ == old(buffer)@,
            old(self).went(
                *final(self),
                if reserved {
                    1
                } else {
                    0
                },
                !reserved,
            ),
    {
        let reserved = match self.left {
            None => reserve_text(buffer, length),
            Some(left) => left > 0,
        };
        self.count(reserved);
        reserved
    }

    /// Reserves room for one more property.
    fn entry(&mut self, properties: &mut Vec<(PropertyName, Vec<u8>)>) -> (reserved: bool)
        ensures
            final(properties)@ == old(properties)@,
            old(self).went(
                *final(self),
                if reserved {
                    1
                } else {
                    0
                },
                !reserved,
            ),
    {
        let reserved = match self.left {
            None => properties.try_reserve(1).is_ok(),
            Some(left) => left > 0,
        };
        self.count(reserved);
        reserved
    }

    /// Notes the answer to a reservation.
    fn count(&mut self, reserved: bool)
        requires
            old(self).left() matches Some(left) ==> reserved == (left > 0),
        ensures
            old(self).went(
                *final(self),
                if reserved {
                    1
                } else {
                    0
                },
                !reserved,
            ),
    {
        if reserved {
            proof {
                self.granted@ = self.granted@ + 1;
            }
            if let Some(left) = self.left {
                self.left = Some(left - 1);
            }
        }
    }
}

// ---------------------------------------------------------------------------
// Execution
// ---------------------------------------------------------------------------

/// Decodes a text with `base64::engine::general_purpose::STANDARD`. The result
/// depends on the text alone.
#[verifier::external_body]
fn decode_base64(text: &str) -> (decoded: Result<Vec<u8>, String>)
    ensures
        (match decoded {
            Ok(bytes) => Ok(bytes@),
            Err(text) => Err(text@),
        }) == base64_decoded(text@),
{
    base64::engine::general_purpose::STANDARD.decode(text).map_err(|error| error.to_string())
}

/// Reserves metadata-string capacity fallibly, so memory pressure surfaces as a
/// bounded error instead of aborting the process. Room for nothing is always
/// there, and room for more bytes than can be counted never is; between the two
/// the machine decides.
pub fn reserve_metadata_string(buffer: &mut String, len: usize) -> (result: Result<(), Error>)
    ensures
        final(buffer)@ == old(buffer)@,
        result matches Err(error) ==> error@ == Fault::Limit("metadata text"@),
        len == 0 ==> result is Ok,
        vstd::utf8::encode_utf8(old(buffer)@).len() + len > usize::MAX ==> result is Err,
{
    if reserve_text(buffer, len) {
        Ok(())
    } else {
        Err(Error::Limit("metadata text"))
    }
}

/// Appends a fragment, or leaves the text alone where memory is missing. There is
/// always room for an empty one.
pub fn append_metadata_text(buffer: &mut String, fragment: &str) -> (result: Result<(), Error>)
    ensures
        match result {
            Ok(()) => final(buffer)@ == old(buffer)@ + fragment@,
            Err(error) => final(buffer)@ == old(buffer)@ && error@ == text_refused(),
        },
        fragment@.len() == 0 ==> result is Ok,
{
    let reserved = fragment.is_empty() || reserve_metadata_string(buffer, fragment.len()).is_ok();
    append_metadata_text_given(buffer, fragment, reserved)
}

/// Appends a fragment where room for it was reserved.
pub fn append_metadata_text_given(buffer: &mut String, fragment: &str, reserved: bool) -> (result:
    Result<(), Error>)
    ensures
        super::heic::outcome(result, ()) == if reserved {
            Ok::<(), Fault>(())
        } else {
            Err(text_refused())
        },
        final(buffer)@ == if reserved {
            old(buffer)@ + fragment@
        } else {
            old(buffer)@
        },
{
    if !reserved {
        return Err(Error::Limit("metadata text"));
    }
    buffer.append(fragment);
    Ok(())
}

/// Appends a property, or leaves the list alone where memory is missing.
pub fn push_property(
    properties: &mut Vec<(PropertyName, Vec<u8>)>,
    property: (PropertyName, Vec<u8>),
) -> (result: Result<(), Error>)
    ensures
        match result {
            Ok(()) => final(properties)@ == old(properties)@.push(property),
            Err(error) => final(properties)@ == old(properties)@ && error@ == entry_refused(),
        },
{
    let reserved = properties.try_reserve(1).is_ok();
    push_property_given(properties, property, reserved)
}

/// Appends a property where room for it was reserved.
pub fn push_property_given(
    properties: &mut Vec<(PropertyName, Vec<u8>)>,
    property: (PropertyName, Vec<u8>),
    reserved: bool,
) -> (result: Result<(), Error>)
    ensures
        super::heic::outcome(result, ()) == if reserved {
            Ok::<(), Fault>(())
        } else {
            Err(entry_refused())
        },
        final(properties)@ == if reserved {
            old(properties)@.push(property)
        } else {
            old(properties)@
        },
{
    if !reserved {
        return Err(Error::Limit("property count"));
    }
    properties.push(property);
    Ok(())
}

/// The property a resolved name stands for, if any.
pub fn property_name(name: &XmlName) -> (property: Option<PropertyName>)
    ensures
        property == property_of(name@),
{
    match &name.namespace {
        Some(namespace) => if !same(namespace.as_str(), APPLE_DESKTOP_NAMESPACE) {
            return None;
        },
        None => return None,
    }
    let local = name.local.as_str();
    if same(local, "h24") {
        Some(PropertyName::H24)
    } else if same(local, "solar") {
        Some(PropertyName::Solar)
    } else if same(local, "apr") {
        Some(PropertyName::Apr)
    } else {
        None
    }
}

/// Judges a decoded value.
pub fn judge_value(decoded: Result<Vec<u8>, String>, limits: &Limits) -> (result: Result<
    Vec<u8>,
    Error,
>)
    ensures
        super::heic::outcome(result, result->Ok_0@) == value_judged(
            match decoded {
                Ok(bytes) => Ok(bytes@),
                Err(text) => Err(text@),
            },
            *limits,
        ),
{
    match decoded {
        Err(text) => {
            let mut message = "invalid Base64 property: ".to_owned();
            message.append(text.as_str());
            Err(Error::Metadata(message))
        },
        Ok(plist) => if plist.len() > limits.max_plist_bytes {
            Err(Error::Limit("property list size"))
        } else {
            Ok(plist)
        },
    }
}

/// Decodes the property list a value encodes. Only a value that is not empty may
/// find no memory.
pub fn decode_plist_base64(value: &str, limits: &Limits) -> (result: Result<Vec<u8>, Error>)
    ensures
        agrees(
            super::heic::outcome(result, result->Ok_0@),
            value_decoded(value@, *limits),
            text_requests(value@),
        ),
        value@.len() == 0 ==> super::heic::outcome(result, result->Ok_0@) == value_decoded(
            value@,
            *limits,
        ),
{
    let mut memory = Memory::machine();
    decode_value(value, limits, &mut memory)
}

/// Decodes the property list a value encodes where room for its text was reserved.
pub fn decode_plist_base64_given(value: &str, limits: &Limits, reserved: bool) -> (result: Result<
    Vec<u8>,
    Error,
>)
    ensures
        super::heic::outcome(result, result->Ok_0@) == if reserved {
            value_decoded(value@, *limits)
        } else {
            Err(text_refused())
        },
{
    if !reserved {
        return Err(Error::Limit("metadata text"));
    }
    decode_compact(value, limits, String::new())
}

/// Decodes a value, its text reserved in `memory`.
fn decode_value(value: &str, limits: &Limits, memory: &mut Memory) -> (result: Result<
    Vec<u8>,
    Error,
>)
    ensures
        old(memory).served(
            *final(memory),
            super::heic::outcome(result, result->Ok_0@),
            value_decoded(value@, *limits),
            text_requests(value@),
        ),
{
    let mut compact = String::new();
    if !value.is_empty() && !memory.text(&mut compact, value.len()) {
        return Err(Error::Limit("metadata text"));
    }
    decode_compact(value, limits, compact)
}

/// Decodes a value, with its text collected in an empty buffer.
fn decode_compact(value: &str, limits: &Limits, buffer: String) -> (result: Result<
    Vec<u8>,
    Error,
>)
    requires
        buffer@.len() == 0,
    ensures
        super::heic::outcome(result, result->Ok_0@) == value_decoded(value@, *limits),
{
    let mut compact = buffer;
    for character in iter: value.chars()
        invariant
            iter.seq() == value@,
            compact@ == crate::text::without_spaces(iter.seq().take(iter.index() as int)),
    {
        assert(iter.seq().take(iter.index() + 1).drop_last() =~= iter.seq().take(
            iter.index() as int,
        ));
        if !is_ascii_space(character) {
            compact.push(character);
        }
    }
    assert(value@.take(value@.len() as int) =~= value@);
    let padded: usize = match limits.max_plist_bytes.checked_add(2) {
        Some(padded) => padded,
        None => return Err(Error::Limit("property list size")),
    };
    let encoded_limit: usize = match (padded / 3).checked_mul(4) {
        Some(encoded_limit) => encoded_limit,
        None => return Err(Error::Limit("property list size")),
    };
    let text: &str = compact.as_str();
    if text.as_bytes().len() > encoded_limit {
        return Err(Error::Limit("property list size"));
    }
    judge_value(decode_base64(text), limits)
}

/// The contents of a property list.
pub open spec fn found_model(found: Seq<(PropertyName, Vec<u8>)>) -> Found {
    found.map_values(|property: (PropertyName, Vec<u8>)| (property.0, property.1@))
}

proof fn lemma_found_push(found: Seq<(PropertyName, Vec<u8>)>, property: (PropertyName, Vec<u8>))
    ensures
        found_model(found.push(property)) == found_model(found).push((property.0, property.1@)),
{
    assert(found_model(found.push(property)) =~= found_model(found).push(
        (property.0, property.1@),
    ));
}

/// A property element whose text is being collected.
#[derive(Debug)]
struct Active {
    name: PropertyName,
    depth: usize,
    text: String,
}

/// A reader of XMP events.
#[derive(Debug)]
pub struct XmpParser {
    depth: usize,
    active: Option<Active>,
    found: Vec<(PropertyName, Vec<u8>)>,
}

impl View for XmpParser {
    type V = Position;

    closed spec fn view(&self) -> Position {
        Position {
            depth: self.depth as nat,
            active: match self.active {
                Some(active) => Some(
                    ActiveModel {
                        name: active.name,
                        depth: active.depth as nat,
                        text: active.text@,
                    },
                ),
                None => None,
            },
            found: found_model(self.found@),
        }
    }
}

/// What a read tag is.
pub open spec fn tag_step(tag: XmlTag, empty: bool) -> Step {
    let attributes = super::xml::attribute_models(tag.attributes@);
    let malformed = super::xml::text_model(tag.malformed);
    if empty {
        Step::Empty(tag.name@, attributes, malformed)
    } else {
        Step::Start(tag.name@, attributes, malformed)
    }
}

/// The event of a reference. What it is called does not matter here.
pub open spec fn reference_token(reference: Result<Option<char>, String>) -> Token {
    Token::Reference(
        Seq::empty(),
        match reference {
            Ok(character) => Ok(character),
            Err(text) => Err(text@),
        },
    )
}

impl XmpParser {
    /// A reader at the start of a document.
    pub fn new() -> (parser: Self)
        ensures
            parser@ == (Position { depth: 0, active: None, found: Seq::empty() }),
    {
        let parser = XmpParser { depth: 0, active: None, found: Vec::new() };
        assert(found_model(parser.found@) =~= Seq::<(PropertyName, Seq<u8>)>::empty());
        parser
    }

    /// Collects a property with its value.
    fn read_property(
        &mut self,
        name: PropertyName,
        value: &str,
        limits: &Limits,
        memory: &mut Memory,
    ) -> (result: Result<(), Error>)
        ensures
            final(self).depth == old(self).depth,
            final(self).active == old(self).active,
            old(memory).served(
                *final(memory),
                super::heic::outcome(result, found_model(final(self).found@)),
                match value_decoded(value@, *limits) {
                    Err(fault) => Err(fault),
                    Ok(plist) => Ok(found_model(old(self).found@).push((name, plist))),
                },
                property_requests(value@, *limits),
            ),
    {
        let plist = decode_value(value, limits, memory)?;
        proof {
            lemma_found_push(self.found@, (name, plist));
        }
        let reserved = memory.entry(&mut self.found);
        push_property_given(&mut self.found, (name, plist), reserved)
    }

    /// Collects the properties among a tag's attributes.
    #[verifier::spinoff_prover]
    #[verifier::loop_isolation(false)]
    fn read_attributes(&mut self, tag: &XmlTag, limits: &Limits, memory: &mut Memory) -> (result:
        Result<(), Error>)
        ensures
            final(self).depth == old(self).depth,
            final(self).active == old(self).active,
            old(memory).served(
                *final(memory),
                super::heic::outcome(result, found_model(final(self).found@)),
                tag_found(
                    super::xml::attribute_models(tag.attributes@),
                    super::xml::text_model(tag.malformed),
                    found_model(old(self).found@),
                    *limits,
                ),
                attributes_requests(
                    super::xml::attribute_models(tag.attributes@),
                    found_model(old(self).found@),
                    *limits,
                ),
            ),
    {
        let ghost models = super::xml::attribute_models(tag.attributes@);
        let ghost before = found_model(self.found@);
        let mut index: usize = 0;
        while index < tag.attributes.len()
            invariant
                index <= tag.attributes@.len(),
                self.depth == old(self).depth,
                self.active == old(self).active,
                attributes_found(models.take(index as int), before, *limits) == Ok::<Found, Fault>(
                    found_model(self.found@),
                ),
                old(memory).went(
                    *memory,
                    attributes_requests(models.take(index as int), before, *limits).len() as int,
                    false,
                ),
            decreases tag.attributes@.len() - index,
        {
            let attribute = &tag.attributes[index];
            proof {
                assert(models.take(index + 1).drop_last() =~= models.take(index as int));
                assert(models.take(index + 1).last() == attribute@);
                lemma_attributes_stop(models, before, *limits, index + 1);
                lemma_attribute_requests_stop(models, before, *limits, index + 1);
                assert(attributes_requests(models.take(index + 1), before, *limits)
                    == attributes_requests(models.take(index as int), before, *limits)
                    + attribute_requests(attribute@, *limits));
            }
            if let Some(name) = property_name(&attribute.name) {
                match &attribute.value {
                    Err(text) => {
                        return Err(Error::Metadata(text.clone()));
                    },
                    Ok(value) => {
                        let ghost middle = *memory;
                        if let Err(error) = self.read_property(
                            name,
                            value.as_str(),
                            limits,
                            memory,
                        ) {
                            proof {
                                let done = attributes_requests(
                                    models.take(index as int),
                                    before,
                                    *limits,
                                );
                                let now = property_requests(value@, *limits);
                                let all = attributes_requests(models, before, *limits);
                                let count = memory.granted() - middle.granted();
                                assert(attribute_requests(attribute@, *limits) == now);
                                if count < now.len() {
                                    assert((done + now)[done.len() + count] == now[count]);
                                    assert(all[done.len() + count] == now[count]);
                                } else {
                                    assert(attributes_found(
                                        models.take(index + 1),
                                        before,
                                        *limits,
                                    ) is Err);
                                    assert(all == done + now);
                                }
                            }
                            return Err(error);
                        }
                    },
                }
            }
            index += 1;
        }
        assert(models.take(index as int) =~= models);
        match &tag.malformed {
            Some(text) => Err(Error::Metadata(text.clone())),
            None => Ok(()),
        }
    }

    /// Opens an element.
    pub fn start(&mut self, tag: &XmlTag, limits: &Limits, memory: &mut Memory) -> (result: Result<
        (),
        Error,
    >)
        ensures
            old(memory).served(
                *final(memory),
                super::heic::outcome(result, final(self)@),
                stepped(old(self)@, tag_step(*tag, false), *limits),
                step_requests(old(self)@, tag_step(*tag, false), *limits),
            ),
    {
        if self.depth >= limits.max_xml_depth {
            return Err(Error::Limit("XMP nesting depth"));
        }
        if self.active.is_some() {
            return Err(Error::Metadata("nested markup in Apple property".to_owned()));
        }
        self.read_attributes(tag, limits, memory)?;
        self.depth = self.depth + 1;
        if let Some(name) = property_name(&tag.name) {
            self.active = Some(Active { name, depth: self.depth, text: String::new() });
        }
        Ok(())
    }

    /// Reads an element without content.
    pub fn empty(&mut self, tag: &XmlTag, limits: &Limits, memory: &mut Memory) -> (result: Result<
        (),
        Error,
    >)
        ensures
            old(memory).served(
                *final(memory),
                super::heic::outcome(result, final(self)@),
                stepped(old(self)@, tag_step(*tag, true), *limits),
                step_requests(old(self)@, tag_step(*tag, true), *limits),
            ),
    {
        if self.depth >= limits.max_xml_depth {
            return Err(Error::Limit("XMP nesting depth"));
        }
        if self.active.is_some() {
            return Err(Error::Metadata("nested markup in Apple property".to_owned()));
        }
        self.read_attributes(tag, limits, memory)?;
        if let Some(name) = property_name(&tag.name) {
            let nothing = "";
            proof {
                reveal_strlit("");
                assert(nothing@ =~= Seq::<char>::empty());
            }
            self.read_property(name, nothing, limits, memory)?;
        }
        Ok(())
    }

    /// Closes an element.
    pub fn end(&mut self, limits: &Limits, memory: &mut Memory) -> (result: Result<(), Error>)
        ensures
            old(memory).served(
                *final(memory),
                super::heic::outcome(result, final(self)@),
                stepped(old(self)@, Step::Other(Token::End), *limits),
                step_requests(old(self)@, Step::Other(Token::End), *limits),
            ),
    {
        let closes = match &self.active {
            Some(active) => active.depth == self.depth,
            None => false,
        };
        if closes {
            let active = self.active.take().unwrap();
            self.read_property(active.name, active.text.as_str(), limits, memory)?;
        }
        if self.depth == 0 {
            return Err(Error::Metadata("unbalanced XMP".to_owned()));
        }
        self.depth = self.depth - 1;
        Ok(())
    }

    /// Reads text or character data.
    pub fn text(&mut self, text: &str, memory: &mut Memory) -> (result: Result<(), Error>)
        ensures
            old(memory).served(
                *final(memory),
                super::heic::outcome(result, final(self)@),
                collected(old(self)@, Token::Text(text@)),
                collected_requests(old(self)@, Token::Text(text@)),
            ),
    {
        if let Some(mut active) = self.active.take() {
            let reserved = text.is_empty() || memory.text(&mut active.text, text.len());
            append_metadata_text_given(&mut active.text, text, reserved)?;
            self.active = Some(active);
        }
        Ok(())
    }

    /// Reads a general reference.
    pub fn reference(
        &mut self,
        reference: &Result<Option<char>, String>,
        memory: &mut Memory,
    ) -> (result: Result<(), Error>)
        ensures
            old(memory).served(
                *final(memory),
                super::heic::outcome(result, final(self)@),
                collected(old(self)@, reference_token(*reference)),
                collected_requests(old(self)@, reference_token(*reference)),
            ),
    {
        if let Some(mut active) = self.active.take() {
            match reference {
                Err(text) => {
                    return Err(Error::Metadata(text.clone()));
                },
                Ok(None) => {
                    return Err(Error::Metadata("entity in Apple property".to_owned()));
                },
                Ok(Some(character)) => {
                    if !memory.text(&mut active.text, utf8_length(*character)) {
                        return Err(Error::Limit("metadata text"));
                    }
                    active.text.push(*character);
                    self.active = Some(active);
                },
            }
        }
        Ok(())
    }

    /// Reads a comment or a processing instruction.
    pub fn markup(&self) -> (result: Result<(), Error>)
        ensures
            super::heic::outcome(result, self@) == collected(self@, Token::Comment),
    {
        if self.active.is_some() {
            return Err(Error::Metadata("markup in Apple property".to_owned()));
        }
        Ok(())
    }

    /// Ends the document.
    pub fn finish(self) -> (result: Result<Vec<(PropertyName, Vec<u8>)>, Error>)
        ensures
            super::heic::outcome(result, found_model(result->Ok_0@)) == if self@.depth != 0
                || self@.active is Some {
                Err(Fault::Metadata("unbalanced XMP"@))
            } else {
                Ok(self@.found)
            },
    {
        if self.depth != 0 || self.active.is_some() {
            return Err(Error::Metadata("unbalanced XMP".to_owned()));
        }
        Ok(self.found)
    }
}

/// A fault among the first attributes is the fault of all of them.
proof fn lemma_attributes_stop(
    attributes: Seq<AttributeModel>,
    found: Found,
    limits: Limits,
    count: int,
)
    requires
        0 <= count <= attributes.len(),
    ensures
        attributes_found(attributes.take(count), found, limits) matches Err(fault)
            ==> attributes_found(attributes, found, limits) == Err::<Found, Fault>(fault),
    decreases attributes.len(),
{
    if count == attributes.len() {
        assert(attributes.take(count) =~= attributes);
    } else {
        lemma_attributes_stop(attributes.drop_last(), found, limits, count);
        assert(attributes.drop_last().take(count) =~= attributes.take(count));
    }
}

/// No reservation is made after a fault among the first attributes.
proof fn lemma_attribute_requests_stop(
    attributes: Seq<AttributeModel>,
    found: Found,
    limits: Limits,
    count: int,
)
    requires
        0 <= count <= attributes.len(),
    ensures
        attributes_requests(attributes.take(count), found, limits).is_prefix_of(
            attributes_requests(attributes, found, limits),
        ),
        attributes_found(attributes.take(count), found, limits) is Err ==> attributes_requests(
            attributes.take(count),
            found,
            limits,
        ) == attributes_requests(attributes, found, limits),
    decreases attributes.len(),
{
    if count == attributes.len() {
        assert(attributes.take(count) =~= attributes);
    } else {
        lemma_attribute_requests_stop(attributes.drop_last(), found, limits, count);
        lemma_attributes_stop(attributes.drop_last(), found, limits, count);
        assert(attributes.drop_last().take(count) =~= attributes.take(count));
    }
}

/// Collects the Apple properties of an XMP document. A document for which nothing
/// is reserved cannot find too little memory.
pub fn parse_xmp(bytes: &[u8], limits: &Limits) -> (result: Result<
    Vec<(PropertyName, Vec<u8>)>,
    Error,
>)
    ensures
        agrees(
            super::heic::outcome(result, found_model(result->Ok_0@)),
            parsed(bytes@, *limits),
            requests(bytes@, *limits),
        ),
        requests(bytes@, *limits).len() == 0 ==> super::heic::outcome(
            result,
            found_model(result->Ok_0@),
        ) == parsed(bytes@, *limits),
{
    let mut memory = Memory::machine();
    parse_xmp_with(bytes, limits, &mut memory)
}

/// Collects the Apple properties of an XMP document where so many reservations are
/// granted and no more.
pub fn parse_xmp_given(bytes: &[u8], limits: &Limits, reservations: usize) -> (result: Result<
    Vec<(PropertyName, Vec<u8>)>,
    Error,
>)
    ensures
        super::heic::outcome(result, found_model(result->Ok_0@)) == granting(
            parsed(bytes@, *limits),
            requests(bytes@, *limits),
            reservations as nat,
        ),
{
    let mut memory = Memory::given(reservations);
    parse_xmp_with(bytes, limits, &mut memory)
}

/// Collects the Apple properties of an XMP document, with room from `memory`.
#[verifier::spinoff_prover]
#[verifier::rlimit(40)]
#[verifier::loop_isolation(false)]
pub(crate) fn parse_xmp_with(bytes: &[u8], limits: &Limits, memory: &mut Memory) -> (result: Result<
    Vec<(PropertyName, Vec<u8>)>,
    Error,
>)
    ensures
        old(memory).served(
            *final(memory),
            super::heic::outcome(result, found_model(result->Ok_0@)),
            parsed(bytes@, *limits),
            requests(bytes@, *limits),
        ),
{
    let mut reader = open_document(bytes, limits.max_xml_events);
    let mut parser = XmpParser::new();
    let mut events: usize = 0;
    let ghost mut made: Seq<Fault> = Seq::empty();
    assert(requests(bytes@, *limits) =~= made + requests_from(bytes@, *limits, 0, parser@));
    loop
        invariant
            super::xml::document(reader) == bytes@,
            super::xml::bindings(reader) == limits.max_xml_events,
            super::xml::events_read(reader) == events,
            events <= limits.max_xml_events,
            parsed(bytes@, *limits) == parsed_from(bytes@, *limits, events as nat, parser@),
            requests(bytes@, *limits) == made + requests_from(
                bytes@,
                *limits,
                events as nat,
                parser@,
            ),
            old(memory).went(*memory, made.len() as int, false),
        decreases limits.max_xml_events - events,
    {
        let ghost position = parser@;
        if events >= limits.max_xml_events {
            return Err(Error::Limit("XMP event count"));
        }
        events += 1;
        let event = match next_event(&mut reader) {
            Ok(event) => event,
            Err(text) => return Err(Error::Metadata(text)),
        };
        match event {
            XmlEvent::Start(tag) => {
                let tag = read_tag(&reader, &tag, bytes.len());
                parser.start(&tag, limits, memory)?;
            },
            XmlEvent::Empty(tag) => {
                let tag = read_tag(&reader, &tag, bytes.len());
                parser.empty(&tag, limits, memory)?;
            },
            XmlEvent::End => {
                parser.end(limits, memory)?;
            },
            XmlEvent::Text(text) => {
                parser.text(text.as_str(), memory)?;
            },
            XmlEvent::Data(text) => {
                parser.text(text.as_str(), memory)?;
            },
            XmlEvent::Reference(_, reference) => {
                parser.reference(&reference, memory)?;
            },
            XmlEvent::Comment => {
                parser.markup()?;
            },
            XmlEvent::Instruction => {
                parser.markup()?;
            },
            XmlEvent::DocType => {
                return Err(Error::Metadata("XMP DTD is not allowed".to_owned()));
            },
            XmlEvent::Declaration => {},
            XmlEvent::Eof => {
                return parser.finish();
            },
        }
        proof {
            let bindings = limits.max_xml_events as nat;
            let token = super::xml::xml_event(bytes@, bindings, (events - 1) as nat)->Ok_0;
            let step = step_of(bytes@, bindings, events as nat, token);
            let now = step_requests(position, step, *limits);
            assert(made + (now + requests_from(bytes@, *limits, events as nat, parser@)) =~= (made
                + now) + requests_from(bytes@, *limits, events as nat, parser@));
            made = made + now;
        }
    }
}

/// Nothing is reserved for a tag that neither is nor carries an Apple property, nor
/// for anything else outside a property.
pub proof fn law_nothing_is_reserved_outside_properties(
    position: Position,
    step: Step,
    limits: Limits,
)
    requires
        position.active is None,
        step matches Step::Start(_, attributes, _) ==> forall|i: int|
            0 <= i < attributes.len() ==> property_of((#[trigger] attributes[i]).name) is None,
        step matches Step::Empty(name, attributes, _) ==> property_of(name) is None && forall|
            i: int,
        |
            0 <= i < attributes.len() ==> property_of((#[trigger] attributes[i]).name) is None,
    ensures
        step_requests(position, step, limits).len() == 0,
{
    match step {
        Step::Start(_, attributes, _) => lemma_no_requests(attributes, position.found, limits),
        Step::Empty(_, attributes, _) => lemma_no_requests(attributes, position.found, limits),
        Step::Other(_) => {},
    }
}

proof fn lemma_no_requests(attributes: Seq<AttributeModel>, found: Found, limits: Limits)
    requires
        forall|i: int|
            0 <= i < attributes.len() ==> property_of((#[trigger] attributes[i]).name) is None,
    ensures
        attributes_requests(attributes, found, limits).len() == 0,
    decreases attributes.len(),
{
    if attributes.len() > 0 {
        assert forall|i: int| 0 <= i < attributes.drop_last().len() implies property_of(
            (#[trigger] attributes.drop_last()[i]).name,
        ) is None by {
            assert(attributes.drop_last()[i] == attributes[i]);
        }
        lemma_no_requests(attributes.drop_last(), found, limits);
        assert(attributes.last() == attributes[attributes.len() - 1]);
    }
}

/// A property is told by its name in Apple's namespace; the same name in any other, or in
/// none, is no property.
pub proof fn law_properties_are_told_by_their_names(name: NameModel)
    ensures
        ({
            let apple = name.namespace == Some("http://ns.apple.com/namespace/1.0/"@);
            &&& property_of(name) == Some(PropertyName::H24) <==> apple && name.local == "h24"@
            &&& property_of(name) == Some(PropertyName::Solar) <==> apple && name.local == "solar"@
            &&& property_of(name) == Some(PropertyName::Apr) <==> apple && name.local == "apr"@
        }),
{
    reveal_strlit("h24");
    reveal_strlit("solar");
    reveal_strlit("apr");
    assert("h24"@[0] == 'h' && "solar"@[0] == 's' && "apr"@[0] == 'a');
}

/// White space in a value does not count, wherever it stands.
pub proof fn law_white_space_in_values_does_not_count(
    before: Seq<char>,
    space: char,
    after: Seq<char>,
    limits: Limits,
)
    requires
        space == ' ' || space == '\t' || space == '\n' || space == '\r' || space == '\u{c}',
    ensures
        value_decoded(before + seq![space] + after, limits) == value_decoded(
            before + after,
            limits,
        ),
{
    crate::text::law_spaces_are_taken_out(before + seq![space], after);
    crate::text::law_spaces_are_taken_out(before, seq![space]);
    crate::text::law_spaces_are_taken_out(before, after);
    crate::text::law_spaces_are_taken_out(seq![space], after);
    assert(crate::text::without_spaces(before) + Seq::<char>::empty()
        =~= crate::text::without_spaces(before));
}

/// A value without white space is decoded where its groups of four characters could hold
/// no more than the limit, and counts where what it decodes to is within the limit too.
pub proof fn law_values_are_decoded_within_the_limit(
    value: Seq<char>,
    limits: Limits,
    groups: int,
)
    requires
        3 * (groups - 1) < limits.max_plist_bytes <= 3 * groups,
        limits.max_plist_bytes + 2 <= usize::MAX,
        4 * groups <= usize::MAX,
        crate::text::without_spaces(value) == value,
    ensures
        vstd::utf8::encode_utf8(value).len() > 4 * groups ==> value_decoded(value, limits) == Err::<
            Seq<u8>,
            Fault,
        >(Fault::Limit("property list size"@)),
        vstd::utf8::encode_utf8(value).len() <= 4 * groups ==> {
            &&& (base64_decoded(value) matches Ok(plist) ==> value_decoded(value, limits)
                == if plist.len() <= limits.max_plist_bytes {
                Ok::<Seq<u8>, Fault>(plist)
            } else {
                Err::<Seq<u8>, Fault>(Fault::Limit("property list size"@))
            })
            &&& (base64_decoded(value) matches Err(text) ==> value_decoded(value, limits) == Err::<
                Seq<u8>,
                Fault,
            >(Fault::Metadata("invalid Base64 property: "@ + text)))
        },
{
    assert((limits.max_plist_bytes + 2) / 3 == groups);
}

/// The properties among two lists of attributes are those of the first and then those of
/// the second; one attribute adds its property where it is one, and nothing otherwise.
pub proof fn law_attributes_are_looked_at_one_by_one(
    first: Seq<AttributeModel>,
    second: Seq<AttributeModel>,
    attribute: AttributeModel,
    found: Found,
    limits: Limits,
)
    ensures
        attributes_found(first + second, found, limits) == match attributes_found(
            first,
            found,
            limits,
        ) {
            Ok(between) => attributes_found(second, between, limits),
            Err(fault) => Err(fault),
        },
        property_of(attribute.name) is None ==> attributes_found(seq![attribute], found, limits)
            == Ok::<Found, Fault>(found),
        property_of(attribute.name) matches Some(name) ==> {
            let after = attributes_found(seq![attribute], found, limits);
            &&& (attribute.value matches Err(text) ==> after == Err::<Found, Fault>(
                Fault::Metadata(text),
            ))
            &&& (attribute.value matches Ok(value) ==> match value_decoded(value, limits) {
                Ok(plist) => after == Ok::<Found, Fault>(found.push((name, plist))),
                Err(fault) => after == Err::<Found, Fault>(fault),
            })
        },
    decreases second.len(),
{
    reveal_with_fuel(attributes_found, 2);
    assert(seq![attribute].drop_last() =~= Seq::<AttributeModel>::empty());
    if second.len() == 0 {
        assert(first + second =~= first);
    } else {
        let shorter = second.drop_last();
        assert((first + second).drop_last() =~= first + shorter);
        assert((first + second).last() == second.last());
        law_attributes_are_looked_at_one_by_one(first, shorter, attribute, found, limits);
    }
}

/// A tag gives its properties, unless an attribute is malformed, which is named once those
/// before it were looked at.
pub proof fn law_tags_give_their_properties(
    attributes: Seq<AttributeModel>,
    text: Seq<char>,
    found: Found,
    limits: Limits,
)
    ensures
        tag_found(attributes, None, found, limits) == attributes_found(attributes, found, limits),
        attributes_found(attributes, found, limits) is Ok ==> tag_found(
            attributes,
            Some(text),
            found,
            limits,
        ) == Err::<Found, Fault>(Fault::Metadata(text)),
        attributes_found(attributes, found, limits) is Err ==> tag_found(
            attributes,
            Some(text),
            found,
            limits,
        ) == attributes_found(attributes, found, limits),
{
}

/// A start tag goes one level down and takes its attributes; where it names a property,
/// its text is collected from there. No tag may stand in a property or lie too deep.
pub proof fn law_start_tags_go_down(
    position: Position,
    name: NameModel,
    attributes: Seq<AttributeModel>,
    malformed: Option<Seq<char>>,
    limits: Limits,
)
    ensures
        ({
            let start = stepped(position, Step::Start(name, attributes, malformed), limits);
            let empty = stepped(position, Step::Empty(name, attributes, malformed), limits);
            let deep = position.depth >= limits.max_xml_depth;
            let found = tag_found(attributes, malformed, position.found, limits);
            &&& deep ==> start == Err::<Position, Fault>(Fault::Limit("XMP nesting depth"@))
                && empty == start
            &&& !deep && position.active is Some ==> start == Err::<Position, Fault>(
                Fault::Metadata("nested markup in Apple property"@),
            ) && empty == start
            &&& !deep && position.active is None ==> (start is Ok <==> found is Ok)
            &&& (!deep && position.active is None ==> (found matches Err(fault) ==> start == Err::<
                Position,
                Fault,
            >(fault) && empty == start))
            &&& (start matches Ok(after) ==> {
                &&& after.depth == position.depth + 1
                &&& Ok::<Found, Fault>(after.found) == found
                &&& property_of(name) is None <==> after.active is None
                &&& (after.active matches Some(active) ==> Some(active.name) == property_of(name)
                    && active.depth == after.depth && active.text.len() == 0)
            })
        }),
{
}

/// An element without content leaves the level as it is and takes its attributes; where it
/// names a property, its value is empty.
pub proof fn law_empty_elements_hold_nothing(
    position: Position,
    name: NameModel,
    attributes: Seq<AttributeModel>,
    malformed: Option<Seq<char>>,
    limits: Limits,
)
    requires
        position.depth < limits.max_xml_depth,
        position.active is None,
    ensures
        ({
            let empty = stepped(position, Step::Empty(name, attributes, malformed), limits);
            let found = tag_found(attributes, malformed, position.found, limits);
            let nothing = value_decoded(Seq::empty(), limits);
            &&& (empty matches Ok(after) ==> after.depth == position.depth && after.active is None)
            &&& (found matches Ok(all) ==> {
                &&& property_of(name) is None ==> (empty matches Ok(after) && after.found == all)
                &&& (property_of(name) matches Some(kind) ==> match nothing {
                    Ok(plist) => empty matches Ok(after) && after.found == all.push((kind, plist)),
                    Err(fault) => empty == Err::<Position, Fault>(fault),
                })
            })
        }),
{
}

/// An end tag goes one level up. Where it closes a property, the collected text is its
/// value; there is nothing to close above the document.
pub proof fn law_end_tags_go_up(position: Position, limits: Limits)
    ensures
        ({
            let end = stepped(position, Step::Other(Token::End), limits);
            let closes = position.active matches Some(active) && active.depth == position.depth;
            &&& (end matches Ok(after) ==> after.depth + 1 == position.depth)
            &&& !closes && position.depth > 0 ==> (end matches Ok(after) && after.active
                == position.active && after.found == position.found)
            &&& !closes && position.depth == 0 ==> end == Err::<Position, Fault>(
                Fault::Metadata("unbalanced XMP"@),
            )
            &&& (closes ==> (position.active matches Some(active) && match value_decoded(
                active.text,
                limits,
            ) {
                Ok(plist) => position.depth > 0 ==> (end matches Ok(after) && after.active is None
                    && after.found == position.found.push((active.name, plist))),
                Err(fault) => end == Err::<Position, Fault>(fault),
            }))
        }),
{
}

/// The text of a property is what stands in its element, character references included.
/// Entities and markup may not stand there; outside a property nothing of it counts, but a
/// document type never may stand anywhere.
pub proof fn law_property_text_is_collected(
    position: Position,
    text: Seq<char>,
    name: Seq<char>,
    character: char,
    limits: Limits,
)
    ensures
        stepped(position, Step::Other(Token::DocType), limits) == Err::<Position, Fault>(
            Fault::Metadata("XMP DTD is not allowed"@),
        ),
        position.active is None ==> {
            &&& stepped(position, Step::Other(Token::Text(text)), limits) == Ok::<Position, Fault>(
                position,
            )
            &&& stepped(position, Step::Other(Token::Data(text)), limits) == Ok::<Position, Fault>(
                position,
            )
            &&& stepped(position, Step::Other(Token::Comment), limits) == Ok::<Position, Fault>(
                position,
            )
            &&& stepped(position, Step::Other(Token::Instruction), limits) == Ok::<Position, Fault>(
                position,
            )
            &&& stepped(position, Step::Other(Token::Reference(name, Ok(None))), limits) == Ok::<
                Position,
                Fault,
            >(position)
        },
        position.active matches Some(active) ==> {
            &&& (stepped(position, Step::Other(Token::Text(text)), limits) matches Ok(after)
                && after.active matches Some(more) && more.text == active.text + text && more.name
                == active.name && more.depth == active.depth && after.depth == position.depth
                && after.found == position.found)
            &&& stepped(position, Step::Other(Token::Data(text)), limits) == stepped(
                position,
                Step::Other(Token::Text(text)),
                limits,
            )
            &&& (stepped(
                position,
                Step::Other(Token::Reference(name, Ok(Some(character)))),
                limits,
            ) matches Ok(after) && after.active matches Some(more) && more.text
                == active.text.push(character) && more.name == active.name && after.depth
                == position.depth && after.found == position.found)
            &&& stepped(position, Step::Other(Token::Reference(name, Ok(None))), limits) is Err
            &&& stepped(position, Step::Other(Token::Reference(name, Err(text))), limits) == Err::<
                Position,
                Fault,
            >(Fault::Metadata(text))
            &&& stepped(position, Step::Other(Token::Comment), limits) == Err::<Position, Fault>(
                Fault::Metadata("markup in Apple property"@),
            )
            &&& stepped(position, Step::Other(Token::Instruction), limits) == Err::<
                Position,
                Fault,
            >(Fault::Metadata("markup in Apple property"@))
        },
{
}

/// Whether one event of a document leads from a position to the next.
pub open spec fn follows(
    bytes: Seq<u8>,
    limits: Limits,
    positions: Seq<Position>,
    read: nat,
) -> bool {
    let bindings = limits.max_xml_events as nat;
    super::xml::xml_event(bytes, bindings, read) matches Ok(token) && {
        &&& !(token is Eof)
        &&& stepped(
            positions[read as int],
            step_of(bytes, bindings, read + 1, token),
            limits,
        ) == Ok::<Position, Fault>(positions[read as int + 1])
    }
}

/// Whether a document leads from position to position, event by event, up to its end, at
/// which nothing is open.
pub open spec fn traversed(bytes: Seq<u8>, limits: Limits, positions: Seq<Position>) -> bool {
    let bindings = limits.max_xml_events as nat;
    &&& 1 <= positions.len() <= limits.max_xml_events
    &&& positions[0].depth == 0 && positions[0].active is None && positions[0].found.len() == 0
    &&& positions.last().depth == 0 && positions.last().active is None
    &&& super::xml::xml_event(bytes, bindings, (positions.len() - 1) as nat) == Ok::<
        Token,
        Seq<char>,
    >(Token::Eof)
    &&& forall|read: nat|
        read + 1 < positions.len() ==> #[trigger] follows(bytes, limits, positions, read)
}

/// A document gives the properties found on its way from event to event.
pub proof fn law_documents_give_what_was_found(
    bytes: Seq<u8>,
    limits: Limits,
    positions: Seq<Position>,
)
    requires
        traversed(bytes, limits, positions),
    ensures
        parsed(bytes, limits) == Ok::<Found, Fault>(positions.last().found),
{
    assert(positions[0].found =~= Seq::<(PropertyName, Seq<u8>)>::empty());
    lemma_traversed(bytes, limits, positions, 0);
}

proof fn lemma_traversed(bytes: Seq<u8>, limits: Limits, positions: Seq<Position>, read: nat)
    requires
        traversed(bytes, limits, positions),
        read < positions.len(),
    ensures
        parsed_from(bytes, limits, read, positions[read as int]) == Ok::<Found, Fault>(
            positions.last().found,
        ),
    decreases positions.len() - read,
{
    if read + 1 < positions.len() {
        assert(follows(bytes, limits, positions, read));
        lemma_traversed(bytes, limits, positions, read + 1);
    }
}

/// Every document that gives its properties was read in this way; the answer gives the
/// positions it leads through.
pub proof fn law_what_was_found_is_in_the_document(bytes: Seq<u8>, limits: Limits) -> (positions:
    Seq<Position>)
    requires
        parsed(bytes, limits) is Ok,
    ensures
        traversed(bytes, limits, positions),
        parsed(bytes, limits) == Ok::<Found, Fault>(positions.last().found),
{
    let start = Position { depth: 0, active: None, found: Seq::empty() };
    let positions = lemma_positions(bytes, limits, seq![start]);
    positions
}

proof fn lemma_positions(bytes: Seq<u8>, limits: Limits, begun: Seq<Position>) -> (positions: Seq<
    Position,
>)
    requires
        begun.len() >= 1,
        begun[0].depth == 0 && begun[0].active is None && begun[0].found.len() == 0,
        parsed_from(bytes, limits, (begun.len() - 1) as nat, begun.last()) is Ok,
        forall|read: nat| read + 1 < begun.len() ==> #[trigger] follows(bytes, limits, begun, read),
    ensures
        traversed(bytes, limits, positions),
        parsed_from(bytes, limits, (begun.len() - 1) as nat, begun.last()) == Ok::<Found, Fault>(
            positions.last().found,
        ),
    decreases limits.max_xml_events + 1 - begun.len(),
{
    let bindings = limits.max_xml_events as nat;
    let read = (begun.len() - 1) as nat;
    let token = super::xml::xml_event(bytes, bindings, read)->Ok_0;
    if token is Eof {
        begun
    } else {
        let next = stepped(
            begun.last(),
            step_of(bytes, bindings, read + 1, token),
            limits,
        )->Ok_0;
        let more = begun.push(next);
        assert forall|at: nat| at + 1 < more.len() implies #[trigger] follows(
            bytes,
            limits,
            more,
            at,
        ) by {
            if at + 1 < begun.len() {
                assert(follows(bytes, limits, begun, at));
            }
        }
        assert(more.last() == next);
        let positions = lemma_positions(bytes, limits, more);
        positions
    }
}

/// A property makes one reservation for its text, where it has any, and one for itself once
/// it was decoded; a text that is collected makes one where it is not empty.
pub proof fn law_reservations_are_made_one_by_one(value: Seq<char>, limits: Limits)
    ensures
        text_requests(value).len() == if value.len() > 0 {
            1nat
        } else {
            0
        },
        property_requests(value, limits).len() == text_requests(value).len() + if value_decoded(
            value,
            limits,
        ) is Ok {
            1nat
        } else {
            0
        },
        value_decoded(value, limits) is Ok ==> property_requests(value, limits).last()
            == Fault::Limit("property count"@),
        value.len() > 0 ==> text_requests(value)[0] == Fault::Limit("metadata text"@)
            && property_requests(value, limits)[0] == Fault::Limit("metadata text"@),
{
}

/// The reservations for two lists of attributes are those for the first and, where all of
/// them could be read, those for the second.
pub proof fn law_attributes_reserve_in_order(
    first: Seq<AttributeModel>,
    second: Seq<AttributeModel>,
    attribute: AttributeModel,
    found: Found,
    limits: Limits,
)
    ensures
        attributes_requests(first + second, found, limits) == match attributes_found(
            first,
            found,
            limits,
        ) {
            Ok(between) => attributes_requests(first, found, limits) + attributes_requests(
                second,
                between,
                limits,
            ),
            Err(_) => attributes_requests(first, found, limits),
        },
        property_of(attribute.name) is None ==> attributes_requests(
            seq![attribute],
            found,
            limits,
        ).len() == 0,
        property_of(attribute.name) is Some ==> attributes_requests(seq![attribute], found, limits)
            == match attribute.value {
            Ok(value) => property_requests(value, limits),
            Err(_) => Seq::empty(),
        },
    decreases second.len(),
{
    reveal_with_fuel(attributes_requests, 2);
    reveal_with_fuel(attributes_found, 2);
    assert(seq![attribute].drop_last() =~= Seq::<AttributeModel>::empty());
    assert(Seq::<Fault>::empty() + attribute_requests(attribute, limits) =~= attribute_requests(
        attribute,
        limits,
    ));
    if second.len() == 0 {
        assert(first + second =~= first);
        assert(attributes_requests(first, found, limits) + Seq::<Fault>::empty()
            =~= attributes_requests(first, found, limits));
    } else {
        let shorter = second.drop_last();
        assert((first + second).drop_last() =~= first + shorter);
        assert((first + second).last() == second.last());
        law_attributes_reserve_in_order(first, shorter, attribute, found, limits);
        law_attributes_are_looked_at_one_by_one(first, shorter, attribute, found, limits);
        if let Ok(between) = attributes_found(first, found, limits) {
            let ours = attributes_requests(first, found, limits);
            let theirs = attributes_requests(shorter, between, limits);
            let last = attribute_requests(second.last(), limits);
            assert(ours + theirs + last =~= ours + (theirs + last));
        }
    }
}

/// The reservations made along the events of a document from one on.
pub open spec fn reserved_along(
    bytes: Seq<u8>,
    limits: Limits,
    positions: Seq<Position>,
    from: nat,
) -> Seq<Fault>
    decreases positions.len() - from,
{
    let bindings = limits.max_xml_events as nat;
    if from + 1 >= positions.len() {
        Seq::empty()
    } else {
        let token = super::xml::xml_event(bytes, bindings, from)->Ok_0;
        step_requests(
            positions[from as int],
            step_of(bytes, bindings, from + 1, token),
            limits,
        ) + reserved_along(bytes, limits, positions, from + 1)
    }
}

/// A document makes the reservations of its events, in their order, and no others. Where
/// fewer are granted, the first that is not is its fault; otherwise it comes to what it
/// would with all the memory there is.
pub proof fn law_documents_reserve_along_their_events(
    bytes: Seq<u8>,
    limits: Limits,
    positions: Seq<Position>,
    expected: Result<Found, Fault>,
    granted: nat,
)
    requires
        traversed(bytes, limits, positions),
    ensures
        requests(bytes, limits) == reserved_along(bytes, limits, positions, 0),
        granted < requests(bytes, limits).len() ==> granting(
            expected,
            requests(bytes, limits),
            granted,
        ) == Err::<Found, Fault>(requests(bytes, limits)[granted as int]),
        granted >= requests(bytes, limits).len() ==> granting(
            expected,
            requests(bytes, limits),
            granted,
        ) == expected,
{
    assert(positions[0].found =~= Seq::<(PropertyName, Seq<u8>)>::empty());
    lemma_reserved(bytes, limits, positions, 0);
}

proof fn lemma_reserved(bytes: Seq<u8>, limits: Limits, positions: Seq<Position>, read: nat)
    requires
        traversed(bytes, limits, positions),
        read < positions.len(),
    ensures
        requests_from(bytes, limits, read, positions[read as int]) == reserved_along(
            bytes,
            limits,
            positions,
            read,
        ),
    decreases positions.len() - read,
{
    if read + 1 < positions.len() {
        assert(follows(bytes, limits, positions, read));
        lemma_reserved(bytes, limits, positions, read + 1);
    }
}

/// An end tag reserves for the property it closes, text for itself in a property, and a
/// character reference there for its one character; outside a property neither does.
pub proof fn law_events_reserve_for_properties(
    position: Position,
    text: Seq<char>,
    name: Seq<char>,
    character: char,
    limits: Limits,
)
    ensures
        position.active is None ==> {
            &&& step_requests(position, Step::Other(Token::Text(text)), limits).len() == 0
            &&& step_requests(position, Step::Other(Token::End), limits).len() == 0
        },
        position.active matches Some(active) ==> {
            &&& step_requests(position, Step::Other(Token::Text(text)), limits) == text_requests(
                text,
            )
            &&& step_requests(position, Step::Other(Token::Data(text)), limits) == text_requests(
                text,
            )
            &&& step_requests(
                position,
                Step::Other(Token::Reference(name, Ok(Some(character)))),
                limits,
            ) == seq![Fault::Limit("metadata text"@)]
            &&& active.depth == position.depth ==> step_requests(
                position,
                Step::Other(Token::End),
                limits,
            ) == property_requests(active.text, limits)
            &&& active.depth != position.depth ==> step_requests(
                position,
                Step::Other(Token::End),
                limits,
            ).len() == 0
        },
{
}

/// A tag is looked at with all its attributes, from the first on, in the scope that it
/// opens itself; any other event is looked at as it is.
pub proof fn law_tags_are_looked_at_whole(
    bytes: Seq<u8>,
    bindings: nat,
    read: nat,
    tag: Seq<char>,
    token: Token,
    position: int,
)
    ensures
        ({
            let name = super::xml::xml_tag(bytes, bindings, read, tag);
            let start = step_of(bytes, bindings, read, Token::Start(tag));
            let empty = step_of(bytes, bindings, read, Token::Empty(tag));
            &&& (start matches Step::Start(called, attributes, malformed) && {
                &&& called == name
                &&& empty == Step::Empty(called, attributes, malformed)
                &&& 0 <= position < attributes.len() ==> super::xml::xml_attribute(
                    bytes,
                    bindings,
                    read,
                    tag,
                    position as nat,
                ) == Some(Ok::<AttributeModel, Seq<char>>(attributes[position]))
                &&& (malformed matches Some(text) ==> super::xml::xml_attribute(
                    bytes,
                    bindings,
                    read,
                    tag,
                    attributes.len(),
                ) == Some(Err::<AttributeModel, Seq<char>>(text)))
                &&& malformed is None && attributes.len() < bytes.len()
                    ==> super::xml::xml_attribute(bytes, bindings, read, tag, attributes.len())
                    is None
            })
            &&& !(token is Start) && !(token is Empty) ==> step_of(bytes, bindings, read, token)
                == Step::Other(token)
        }),
{
    super::xml::law_attributes_are_read_one_by_one(bytes, bindings, read, tag, position);
}

/// The first reservation that is not granted is the fault; where all are, nothing is lost.
pub proof fn law_the_first_refusal_is_the_fault<M>(
    expected: Result<M, Fault>,
    requests: Seq<Fault>,
    granted: nat,
)
    ensures
        granted < requests.len() ==> granting(expected, requests, granted) == Err::<M, Fault>(
            requests[granted as int],
        ),
        granted >= requests.len() ==> granting(expected, requests, granted) == expected,
{
}

} // verus!
