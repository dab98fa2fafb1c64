//! Property lists: the XML preflight, and the Apple properties they encode.

use vstd::prelude::*;

use super::heic::{Error, Fault, Limits};
use super::model::{
    is_finite, Appearance, AppleProperty, ImageReference, ModelError, NormalizedTime, Number,
    PropertyValue, Schedule, SolarPoint, SolarPosition, TimePoint, TopLevelImages,
};
use super::plist_binary::{charge_expanded_bytes, is_binary_plist, preflight_binary_plist};
use super::xml::{next_event, open_document, tag_name, Token, XmlEvent};
use super::xmp::PropertyName;
use crate::text::{begins_with, same};

verus! {

// ---------------------------------------------------------------------------
// XML preflight
// ---------------------------------------------------------------------------

/// Whether a byte is ASCII whitespace.
pub open spec fn space_byte(byte: u8) -> bool {
    byte == 0x20 || byte == 0x09 || byte == 0x0a || byte == 0x0c || byte == 0x0d
}

/// The first byte from `from` on that is not whitespace, or the end.
pub open spec fn mark_from(bytes: Seq<u8>, from: int) -> int
    decreases bytes.len() - from,
{
    if from >= bytes.len() || !space_byte(bytes[from]) {
        from
    } else {
        mark_from(bytes, from + 1)
    }
}

/// Where the content starts, after a byte-order mark if there is one.
pub open spec fn content_start(bytes: Seq<u8>) -> int {
    if bytes.len() >= 3 && bytes[0] == 0xef && bytes[1] == 0xbb && bytes[2] == 0xbf {
        3
    } else {
        0
    }
}

/// Whether the first byte that is not whitespace opens markup.
pub open spec fn looks_like_markup(bytes: Seq<u8>) -> bool {
    let mark = mark_from(bytes, content_start(bytes));
    mark < bytes.len() && bytes[mark] == 0x3c
}

/// The elements that become values, and keys, which become strings.
pub open spec fn allocates(local: Seq<char>) -> bool {
    ||| local == "dict"@
    ||| local == "array"@
    ||| local == "data"@
    ||| local == "date"@
    ||| local == "integer"@
    ||| local == "real"@
    ||| local == "string"@
    ||| local == "true"@
    ||| local == "false"@
    ||| local == "key"@
}

/// What has been counted of an XML property list.
#[derive(Clone, Copy, Debug)]
pub struct Expansion {
    pub objects: usize,
    pub memory: usize,
    pub depth: usize,
    /// Whether an element was seen.
    pub root: bool,
}

/// One more element with the given local name.
pub open spec fn element_charged(state: Expansion, local: Seq<char>, limits: Limits) -> Result<
    Expansion,
    Fault,
> {
    if !allocates(local) {
        Ok(state)
    } else if state.objects + 1 > limits.max_expanded_plist_objects {
        Err(Fault::Limit("expanded property list object count"@))
    } else if state.memory + 64 > limits.max_expanded_plist_bytes {
        Err(Fault::Limit("expanded property list memory"@))
    } else {
        Ok(
            Expansion {
                objects: (state.objects + 1) as usize,
                memory: (state.memory + 64) as usize,
                ..state
            },
        )
    }
}

/// One more event; `local` is the local name of its tag, if it is a tag.
pub open spec fn element_stepped(
    state: Expansion,
    token: Token,
    local: Seq<char>,
    limits: Limits,
) -> Result<Expansion, Fault> {
    match token {
        Token::Start(_) => if state.depth + 1 > limits.max_plist_depth {
            Err(Fault::Limit("property list nesting depth"@))
        } else {
            element_charged(
                Expansion { root: true, depth: (state.depth + 1) as usize, ..state },
                local,
                limits,
            )
        },
        Token::Empty(_) => if state.depth + 1 > limits.max_plist_depth {
            Err(Fault::Limit("property list nesting depth"@))
        } else {
            element_charged(Expansion { root: true, ..state }, local, limits)
        },
        Token::End => if state.depth == 0 {
            Err(Fault::Metadata("unbalanced XML property list"@))
        } else {
            Ok(Expansion { depth: (state.depth - 1) as usize, ..state })
        },
        _ => Ok(state),
    }
}

// ---------------------------------------------------------------------------
// Dates
// ---------------------------------------------------------------------------

/// The last day that a date can name.
pub const LAST_DAY: &'static str = "9999-12-31";

/// The minutes of a day.
pub const DAY_MINUTES: u32 = 1_440;

/// Whether a character is a decimal digit.
pub open spec fn digit(character: char) -> bool {
    '0' <= character <= '9'
}

/// The number that two digits at a place of a text make, if they are digits.
pub open spec fn two_digits(text: Seq<char>, at: int) -> Option<int> {
    if 0 <= at && at + 1 < text.len() && digit(text[at]) && digit(text[at + 1]) {
        Some(10 * (text[at] as int - '0' as int) + (text[at + 1] as int - '0' as int))
    } else {
        None
    }
}

/// The minutes that two pairs of digits with a colon between them make, at most
/// 23:59.
pub open spec fn clock_minutes(text: Seq<char>, at: int) -> Option<int> {
    match (two_digits(text, at), two_digits(text, at + 3)) {
        (Some(hours), Some(minutes)) => if hours <= 23 && minutes <= 59 && text[at + 2] == ':' {
            Some(60 * hours + minutes)
        } else {
            None
        },
        _ => None,
    }
}

/// Whether a text is a date and time by RFC 3339, any one-byte character between
/// them, that lies in the year 9999 where it was written and no more in UTC. Local
/// time is then behind UTC, and the last day of that year does not hold both.
pub open spec fn past_last_year(text: Seq<char>) -> bool {
    let zone = text.len() - 6;
    &&& zone >= 19
    &&& LAST_DAY@.is_prefix_of(text)
    &&& (text[10] as u32) < 0x80
    &&& text[16] == ':'
    &&& two_digits(text, 17) matches Some(seconds)
    &&& seconds <= 59
    &&& zone == 19 || text[19] == '.' && zone >= 21 && forall|index: int|
        20 <= index < zone ==> digit(#[trigger] text[index])
    &&& text[zone] == '-'
    &&& clock_minutes(text, 11) matches Some(local)
    &&& clock_minutes(text, zone + 1) matches Some(behind)
    &&& local + behind >= DAY_MINUTES
}

/// What a predefined entity stands for. Other entities stand for nothing.
pub open spec fn entity_text(name: Seq<char>) -> Seq<char> {
    if name == "lt"@ {
        seq!['<']
    } else if name == "gt"@ {
        seq!['>']
    } else if name == "amp"@ {
        seq!['&']
    } else if name == "apos"@ {
        seq!['\'']
    } else if name == "quot"@ {
        seq!['"']
    } else {
        Seq::empty()
    }
}

/// The text of an open `date` element after one more event. What is no text is passed
/// over, and a tag ends it.
pub open spec fn date_stepped(date: Option<Seq<char>>, token: Token, local: Seq<char>) -> Option<
    Seq<char>,
> {
    match token {
        Token::Start(_) => if local == "date"@ {
            Some(Seq::empty())
        } else {
            None
        },
        Token::Empty(_) | Token::End | Token::Eof => None,
        Token::Text(text) => match date {
            Some(before) => Some(before + text),
            None => None,
        },
        Token::Reference(name, reference) => match (date, reference) {
            (Some(before), Ok(Some(character))) => Some(before.push(character)),
            (Some(before), Ok(None)) => Some(before + entity_text(name)),
            _ => None,
        },
        _ => date,
    }
}

/// The text of the `date` element that is open after `read` events, if one is.
pub open spec fn date_text(bytes: Seq<u8>, bindings: nat, read: nat) -> Option<Seq<char>>
    decreases read,
{
    if read == 0 {
        None
    } else {
        match super::xml::xml_event(bytes, bindings, (read - 1) as nat) {
            Ok(token) => date_stepped(
                date_text(bytes, bindings, (read - 1) as nat),
                token,
                local_of(bytes, bindings, read, token),
            ),
            Err(_) => None,
        }
    }
}

/// Whether an event closes a `date` element that is out of range.
pub open spec fn closes_past_date(date: Option<Seq<char>>, token: Token) -> bool {
    token is End && (date matches Some(text) && past_last_year(text))
}

/// Whether a document can be read to its end, with no `date` element out of range.
pub open spec fn dates_in_range(bytes: Seq<u8>, bindings: nat) -> bool {
    exists|end: nat|
        {
            &&& #[trigger] super::xml::xml_event(bytes, bindings, end) == Ok::<Token, Seq<char>>(
                Token::Eof,
            )
            &&& forall|read: nat|
                read < end ==> (#[trigger] super::xml::xml_event(bytes, bindings, read) matches Ok(
                    token,
                ) && !closes_past_date(date_text(bytes, bindings, read), token))
        }
}

fn is_digit(character: char) -> (answer: bool)
    ensures
        answer == digit(character),
{
    '0' <= character && character <= '9'
}

fn read_two_digits(text: &Vec<char>, at: usize) -> (number: Option<u32>)
    requires
        at + 1 < text.len(),
    ensures
        (match number {
            Some(number) => Some(number as int),
            None => None,
        }) == two_digits(text@, at as int),
        number matches Some(number) ==> number <= 99,
{
    let tens: char = text[at];
    let ones: char = text[at + 1];
    if is_digit(tens) && is_digit(ones) {
        Some(10 * (tens as u32 - 48) + (ones as u32 - 48))
    } else {
        None
    }
}

fn read_clock(text: &Vec<char>, at: usize) -> (minutes: Option<u32>)
    requires
        at + 4 < text.len(),
    ensures
        (match minutes {
            Some(minutes) => Some(minutes as int),
            None => None,
        }) == clock_minutes(text@, at as int),
        minutes matches Some(minutes) ==> minutes <= 1_439,
{
    match (read_two_digits(text, at), read_two_digits(text, at + 3)) {
        (Some(hours), Some(minutes)) => if hours <= 23 && minutes <= 59 && text[at + 2] == ':' {
            Some(60 * hours + minutes)
        } else {
            None
        },
        _ => None,
    }
}

/// Whether a date lies in the year 9999 where it was written and no more in UTC.
pub fn is_past_last_year(date: &str) -> (answer: bool)
    ensures
        answer == past_last_year(date@),
{
    if !begins_with(date, LAST_DAY) {
        return false;
    }
    let mut text: Vec<char> = Vec::new();
    for character in iter: date.chars()
        invariant
            iter.seq() == date@,
            text@ =~= date@.take(iter.index() as int),
    {
        text.push(character);
    }
    assert(text@ =~= date@);
    let length: usize = text.len();
    if length < 25 {
        return false;
    }
    let zone: usize = length - 6;
    if text[10] as u32 >= 0x80 || text[16] != ':' || text[zone] != '-' {
        return false;
    }
    match read_two_digits(&text, 17) {
        Some(seconds) => if seconds > 59 {
            return false;
        },
        None => return false,
    }
    if zone != 19 {
        if text[19] != '.' || zone < 21 {
            return false;
        }
        let mut index: usize = 20;
        while index < zone
            invariant
                20 <= index <= zone,
                zone == date@.len() - 6,
                zone != 19,
                text@ == date@,
                forall|seen: int| 20 <= seen < index ==> digit(#[trigger] date@[seen]),
            decreases zone - index,
        {
            if !is_digit(text[index]) {
                assert(!digit(date@[index as int]));
                return false;
            }
            index += 1;
        }
    }
    match (read_clock(&text, 11), read_clock(&text, zone + 1)) {
        (Some(local), Some(behind)) => local + behind >= DAY_MINUTES,
        _ => false,
    }
}

/// Adds a predefined entity to a text.
fn append_entity(text: &mut String, name: &str)
    ensures
        final(text)@ == old(text)@ + entity_text(name@),
{
    let ghost before = text@;
    if same(name, "lt") {
        text.push('<');
    } else if same(name, "gt") {
        text.push('>');
    } else if same(name, "amp") {
        text.push('&');
    } else if same(name, "apos") {
        text.push('\'');
    } else if same(name, "quot") {
        text.push('"');
    }
    assert(text@ =~= before + entity_text(name@));
}

/// The local name of a tag that was the last of `read` events.
pub open spec fn local_of(bytes: Seq<u8>, bindings: nat, read: nat, token: Token) -> Seq<char> {
    match token {
        Token::Start(tag) => super::xml::xml_tag(bytes, bindings, read, tag).local,
        Token::Empty(tag) => super::xml::xml_tag(bytes, bindings, read, tag).local,
        _ => Seq::empty(),
    }
}

/// What an XML property list expands to, from `state` after `read` events on.
pub open spec fn xml_expanded_from(
    bytes: Seq<u8>,
    limits: Limits,
    read: nat,
    state: Expansion,
) -> Result<Expansion, Fault>
    decreases limits.max_xml_events - read,
{
    let bindings = limits.max_xml_events as nat;
    if read + 1 > limits.max_xml_events {
        Err(Fault::Limit("property list event count"@))
    } else {
        match super::xml::xml_event(bytes, bindings, read) {
            Err(text) => Err(Fault::Metadata("invalid XML property list: "@ + text)),
            Ok(Token::Eof) => if state.depth != 0 || !state.root {
                Err(Fault::Metadata("unbalanced XML property list"@))
            } else {
                Ok(state)
            },
            Ok(token) => if closes_past_date(date_text(bytes, bindings, read), token) {
                Err(Fault::Metadata("property list date is out of range"@))
            } else {
                match element_stepped(
                    state,
                    token,
                    local_of(bytes, bindings, read + 1, token),
                    limits,
                ) {
                    Err(fault) => Err(fault),
                    Ok(next) => xml_expanded_from(bytes, limits, read + 1, next),
                }
            },
        }
    }
}

/// The verdict on a whole XML property list.
pub open spec fn xml_inspected(bytes: Seq<u8>, limits: Limits) -> Result<Expansion, Fault> {
    if bytes.len() > limits.max_plist_bytes {
        Err(Fault::Limit("property list size"@))
    } else if !looks_like_markup(bytes) {
        Err(Fault::Metadata("property is not a property list"@))
    } else {
        xml_expanded_from(
            bytes,
            limits,
            0,
            Expansion { objects: 0, memory: 0, depth: 0, root: false },
        )
    }
}

fn is_markup(bytes: &[u8]) -> (answer: bool)
    ensures
        answer == looks_like_markup(bytes@),
{
    let size: usize = bytes.len();
    let mut at: usize = if size >= 3 && bytes[0] == 0xef && bytes[1] == 0xbb && bytes[2] == 0xbf {
        3
    } else {
        0
    };
    while at < size && (bytes[at] == 0x20 || bytes[at] == 0x09 || bytes[at] == 0x0a || bytes[at]
        == 0x0c || bytes[at] == 0x0d)
        invariant
            at <= size,
            size == bytes@.len(),
            mark_from(bytes@, content_start(bytes@)) == mark_from(bytes@, at as int),
        decreases size - at,
    {
        at += 1;
    }
    at < size && bytes[at] == 0x3c
}

/// Whether an element becomes a value or a key.
fn is_allocating(local: &str) -> (answer: bool)
    ensures
        answer == allocates(local@),
{
    same(local, "dict") || same(local, "array") || same(local, "data") || same(local, "date")
        || same(local, "integer") || same(local, "real") || same(local, "string") || same(
        local,
        "true",
    ) || same(local, "false") || same(local, "key")
}

/// Charges one element against the expansion budget.
pub fn charge_plist_element(local: &str, state: Expansion, limits: &Limits) -> (result: Result<
    Expansion,
    Error,
>)
    ensures
        super::heic::outcome(result, result->Ok_0) == element_charged(state, local@, *limits),
{
    if !is_allocating(local) {
        return Ok(state);
    }
    if state.objects >= limits.max_expanded_plist_objects {
        return Err(Error::Limit("expanded property list object count"));
    }
    let mut memory: usize = state.memory;
    charge_expanded_bytes(&mut memory, 64, limits)?;
    Ok(Expansion { objects: state.objects + 1, memory, depth: state.depth, root: state.root })
}

/// Counts a start tag.
pub fn open_element(local: &str, state: Expansion, limits: &Limits) -> (result: Result<
    Expansion,
    Error,
>)
    ensures
        forall|tag: Seq<char>|
            super::heic::outcome(result, result->Ok_0) == #[trigger] element_stepped(
                state,
                Token::Start(tag),
                local@,
                *limits,
            ),
{
    if state.depth >= limits.max_plist_depth {
        return Err(Error::Limit("property list nesting depth"));
    }
    let opened = Expansion {
        objects: state.objects,
        memory: state.memory,
        depth: state.depth + 1,
        root: true,
    };
    charge_plist_element(local, opened, limits)
}

/// Counts an element without content. It occupies one level, so it is checked
/// against the same ceiling as a start tag.
pub fn empty_element(local: &str, state: Expansion, limits: &Limits) -> (result: Result<
    Expansion,
    Error,
>)
    ensures
        forall|tag: Seq<char>|
            super::heic::outcome(result, result->Ok_0) == #[trigger] element_stepped(
                state,
                Token::Empty(tag),
                local@,
                *limits,
            ),
{
    if state.depth >= limits.max_plist_depth {
        return Err(Error::Limit("property list nesting depth"));
    }
    let seen = Expansion {
        objects: state.objects,
        memory: state.memory,
        depth: state.depth,
        root: true,
    };
    charge_plist_element(local, seen, limits)
}

/// `prefix` followed by `text`.
fn metadata_error(prefix: &'static str, text: &str) -> (error: Error)
    ensures
        error@ == Fault::Metadata(prefix@ + text@),
{
    let mut message = prefix.to_owned();
    message.append(text);
    Error::Metadata(message)
}

/// Bounds an XML property list before it is expanded into values.
///
/// XML carries neither an object count nor an offset table, so this counts the
/// elements that allocate an object and tracks nesting through the XML reader. A
/// date that leaves the year 9999 on its way to UTC is refused, because nothing can
/// hold it.
#[verifier::loop_isolation(false)]
pub fn preflight_xml_plist(bytes: &[u8], limits: &Limits) -> (result: Result<(), Error>)
    ensures
        match xml_inspected(bytes@, *limits) {
            Ok(_) => result is Ok,
            Err(fault) => result matches Err(error) && error@ == fault,
        },
        result is Ok ==> dates_in_range(bytes@, limits.max_xml_events as nat),
{
    if bytes.len() > limits.max_plist_bytes {
        return Err(Error::Limit("property list size"));
    }
    if !is_markup(bytes) {
        return Err(Error::Metadata("property is not a property list".to_owned()));
    }
    let mut reader = open_document(bytes, limits.max_xml_events);
    let mut state = Expansion { objects: 0, memory: 0, depth: 0, root: false };
    let mut date: Option<String> = None;
    let mut events: usize = 0;
    loop
        invariant
            super::xml::text_model(date) == date_text(
                bytes@,
                limits.max_xml_events as nat,
                events as nat,
            ),
            forall|read: nat|
                read < events ==> (#[trigger] super::xml::xml_event(
                    bytes@,
                    limits.max_xml_events as nat,
                    read,
                ) matches Ok(token) && !closes_past_date(
                    date_text(bytes@, limits.max_xml_events as nat, read),
                    token,
                )),
            super::xml::document(reader) == bytes@,
            super::xml::bindings(reader) == limits.max_xml_events,
            super::xml::events_read(reader) == events,
            events <= limits.max_xml_events,
            xml_inspected(bytes@, *limits) == xml_expanded_from(
                bytes@,
                *limits,
                events as nat,
                state,
            ),
        decreases limits.max_xml_events - events,
    {
        if events >= limits.max_xml_events {
            return Err(Error::Limit("property list event count"));
        }
        events += 1;
        let event = match next_event(&mut reader) {
            Ok(event) => event,
            Err(text) => return Err(metadata_error("invalid XML property list: ", text.as_str())),
        };
        match event {
            XmlEvent::Start(tag) => {
                let name = tag_name(&reader, &tag);
                state = open_element(name.local.as_str(), state, limits)?;
                date = if same(name.local.as_str(), "date") {
                    Some(String::new())
                } else {
                    None
                };
            },
            XmlEvent::Empty(tag) => {
                let name = tag_name(&reader, &tag);
                state = empty_element(name.local.as_str(), state, limits)?;
                date = None;
            },
            XmlEvent::End => {
                if let Some(text) = &date {
                    if is_past_last_year(text.as_str()) {
                        return Err(
                            Error::Metadata("property list date is out of range".to_owned()),
                        );
                    }
                }
                date = None;
                if state.depth == 0 {
                    return Err(Error::Metadata("unbalanced XML property list".to_owned()));
                }
                state.depth = state.depth - 1;
            },
            XmlEvent::Eof => {
                if state.depth != 0 || !state.root {
                    return Err(Error::Metadata("unbalanced XML property list".to_owned()));
                }
                return Ok(());
            },
            XmlEvent::Text(text) => {
                if let Some(mut before) = date.take() {
                    before.append(text.as_str());
                    date = Some(before);
                }
            },
            XmlEvent::Reference(name, reference) => {
                if let Some(mut before) = date.take() {
                    match reference {
                        Ok(Some(character)) => {
                            before.push(character);
                            date = Some(before);
                        },
                        Ok(None) => {
                            append_entity(&mut before, name.as_str());
                            date = Some(before);
                        },
                        Err(_) => {},
                    }
                }
            },
            _ => {},
        }
    }
}

/// An XML property list that is accepted expands to no more objects and memory
/// than the ceilings allow, and closes every element it opens.
pub proof fn law_accepted_xml_lists_are_within_limits(bytes: Seq<u8>, limits: Limits)
    ensures
        xml_inspected(bytes, limits) matches Ok(state) ==> {
            &&& state.objects <= limits.max_expanded_plist_objects
            &&& state.memory <= limits.max_expanded_plist_bytes
            &&& state.memory == 64 * state.objects
            &&& state.depth == 0
            &&& state.root
            &&& bytes.len() <= limits.max_plist_bytes
        },
{
    lemma_xml_within(
        bytes,
        limits,
        0,
        Expansion { objects: 0, memory: 0, depth: 0, root: false },
    );
}

proof fn lemma_xml_within(bytes: Seq<u8>, limits: Limits, read: nat, state: Expansion)
    requires
        state.objects <= limits.max_expanded_plist_objects,
        state.memory <= limits.max_expanded_plist_bytes,
        state.memory == 64 * state.objects,
    ensures
        xml_expanded_from(bytes, limits, read, state) matches Ok(last) ==> {
            &&& last.objects <= limits.max_expanded_plist_objects
            &&& last.memory <= limits.max_expanded_plist_bytes
            &&& last.memory == 64 * last.objects
            &&& last.depth == 0
            &&& last.root
        },
    decreases limits.max_xml_events - read,
{
    let bindings = limits.max_xml_events as nat;
    if read + 1 <= limits.max_xml_events {
        if let Ok(token) = super::xml::xml_event(bytes, bindings, read) {
            if let Ok(next) = element_stepped(
                state,
                token,
                local_of(bytes, bindings, read + 1, token),
                limits,
            ) {
                lemma_xml_within(bytes, limits, read + 1, next);
            }
        }
    }
}

// ---------------------------------------------------------------------------
// Values
// ---------------------------------------------------------------------------

/// A value of a property list, as far as Apple's properties use it.
pub enum PlistModel {
    Array(Seq<PlistModel>),
    Dictionary(Map<Seq<char>, PlistModel>),
    /// The integer as a signed and as an unsigned word, where it fits them.
    Integer(Option<i64>, Option<u64>),
    /// The bit pattern of a double.
    Real(u64),
    Other,
}

/// A value of a property list.
#[verifier::external_type_specification]
#[verifier::external_body]
pub struct ExValue(plist::Value);

/// A dictionary of a property list.
#[verifier::external_type_specification]
#[verifier::external_body]
pub struct ExDictionary(plist::Dictionary);

/// What a value holds.
pub uninterp spec fn value_contents(value: plist::Value) -> PlistModel;

/// What a dictionary holds.
pub uninterp spec fn dictionary_contents(dictionary: plist::Dictionary) -> Map<
    Seq<char>,
    PlistModel,
>;

/// How `plist` reads a binary property list: its value, or the description of
/// its error.
pub uninterp spec fn binary_value(bytes: Seq<u8>) -> Result<PlistModel, Seq<char>>;

/// How `plist` reads an XML property list: its value, or the description of its
/// error.
pub uninterp spec fn xml_value(bytes: Seq<u8>) -> Result<PlistModel, Seq<char>>;

/// Reads a binary property list with `plist::Value::from_reader`. The value
/// depends on the bytes alone. Bytes that do not announce a binary list would go to
/// the XML reader, and a list that shares its objects grows on reading, so that one
/// is wanted whose expansion was counted to the end.
#[verifier::external_body]
fn read_binary_value(bytes: &[u8]) -> (value: Result<plist::Value, String>)
    requires
        super::plist_binary::announced(bytes@),
        exists|limits: Limits| #[trigger] super::plist_binary::inspected(bytes@, limits) is Ok,
    ensures
        (match value {
            Ok(value) => Ok(value_contents(value)),
            Err(text) => Err(text@),
        }) == binary_value(bytes@),
{
    plist::Value::from_reader(std::io::Cursor::new(bytes)).map_err(|error| error.to_string())
}

/// Reads an XML property list with `plist::Value::from_reader_xml`. The value
/// depends on the bytes alone.
///
/// It moves every date to UTC with `time::OffsetDateTime::to_offset`, which panics on
/// one that then lies past the year 9999; so no date may. `plist` reads its events
/// with the same version of `quick_xml` as this crate, from a buffered reader where
/// this crate reads a slice. That both give the same tags, texts and references is
/// taken for granted. `plist` also expands empty elements, which gives such a date no
/// text, and leaves line ends as they are, of which a date it accepts holds at most
/// one, a single character between day and time.
#[verifier::external_body]
fn read_xml_value(bytes: &[u8]) -> (value: Result<plist::Value, String>)
    requires
        exists|bindings: nat| #[trigger] dates_in_range(bytes@, bindings),
    ensures
        (match value {
            Ok(value) => Ok(value_contents(value)),
            Err(text) => Err(text@),
        }) == xml_value(bytes@),
{
    plist::Value::from_reader_xml(std::io::Cursor::new(bytes)).map_err(|error| error.to_string())
}

/// `plist::Value::as_dictionary`: the dictionary a value is, if it is one.
#[verifier::external_body]
fn as_dictionary(value: &plist::Value) -> (dictionary: Option<&plist::Dictionary>)
    ensures
        match dictionary {
            Some(dictionary) => value_contents(*value) == PlistModel::Dictionary(
                dictionary_contents(*dictionary),
            ),
            None => !(value_contents(*value) is Dictionary),
        },
{
    value.as_dictionary()
}

/// `plist::Value::as_array`: the items of an array, if the value is one.
#[verifier::external_body]
fn as_array(value: &plist::Value) -> (items: Option<&Vec<plist::Value>>)
    ensures
        match items {
            Some(items) => value_contents(*value) == PlistModel::Array(
                items@.map_values(|item: plist::Value| value_contents(item)),
            ),
            None => !(value_contents(*value) is Array),
        },
{
    value.as_array()
}

/// `plist::Dictionary::get`: the value of a key, if there is one.
#[verifier::external_body]
fn get<'a>(dictionary: &'a plist::Dictionary, key: &str) -> (value: Option<&'a plist::Value>)
    ensures
        match value {
            Some(value) => dictionary_contents(*dictionary).contains_key(key@)
                && dictionary_contents(*dictionary)[key@] == value_contents(*value),
            None => !dictionary_contents(*dictionary).contains_key(key@),
        },
{
    dictionary.get(key)
}

/// A numeric value as it is stored.
pub enum StoredNumber {
    Integer(Option<i64>, Option<u64>),
    Real(u64),
    Other,
}

/// The number a value is, from `plist::Integer::as_signed` and
/// `plist::Integer::as_unsigned` for an integer.
#[verifier::external_body]
fn stored_number(value: &plist::Value) -> (number: StoredNumber)
    ensures
        match number {
            StoredNumber::Integer(signed, unsigned) => value_contents(*value)
                == PlistModel::Integer(signed, unsigned),
            StoredNumber::Real(bits) => value_contents(*value) == PlistModel::Real(bits),
            StoredNumber::Other => !(value_contents(*value) is Integer) && !(value_contents(*value)
                is Real),
        },
{
    match value {
        plist::Value::Integer(integer) => StoredNumber::Integer(
            integer.as_signed(),
            integer.as_unsigned(),
        ),
        plist::Value::Real(number) => StoredNumber::Real(number.to_bits()),
        _ => StoredNumber::Other,
    }
}

// ---------------------------------------------------------------------------
// Properties
// ---------------------------------------------------------------------------

/// The number under a key.
pub open spec fn number_read(dictionary: Map<Seq<char>, PlistModel>, key: Seq<char>) -> Result<
    Number,
    Fault,
> {
    if !dictionary.contains_key(key) {
        Err(Fault::Metadata("missing "@ + key))
    } else {
        match dictionary[key] {
            PlistModel::Real(bits) => if super::model::finite(bits) {
                Ok(Number::Real(bits))
            } else {
                Err(Fault::Metadata(key + " is not finite"@))
            },
            PlistModel::Integer(Some(signed), _) => Ok(Number::Integer(signed as i128)),
            PlistModel::Integer(None, Some(unsigned)) => Ok(Number::Integer(unsigned as i128)),
            PlistModel::Integer(None, None) => Err(
                Fault::Metadata(key + " is outside its numeric domain"@),
            ),
            _ => Err(Fault::Metadata(key + " is not numeric"@)),
        }
    }
}

/// The image under a key, among `images` images.
pub open spec fn image_read(
    dictionary: Map<Seq<char>, PlistModel>,
    key: Seq<char>,
    images: nat,
) -> Result<ImageReference, Fault> {
    let index = if !dictionary.contains_key(key) {
        None
    } else {
        match dictionary[key] {
            PlistModel::Integer(_, unsigned) => unsigned,
            _ => None,
        }
    };
    match index {
        Some(index) => if index > usize::MAX {
            Err(Fault::Metadata(key + " is not a valid image index"@))
        } else if index >= images {
            Err(Fault::Metadata(key + " references a missing image"@))
        } else {
            Ok(ImageReference { position: index as usize })
        },
        None => Err(Fault::Metadata(key + " is not a valid image index"@)),
    }
}

/// The appearance a dictionary declares.
pub open spec fn appearance_read(dictionary: Map<Seq<char>, PlistModel>, images: nat) -> Result<
    Appearance,
    Fault,
> {
    match image_read(dictionary, "d"@, images) {
        Err(fault) => Err(fault),
        Ok(dark) => match image_read(dictionary, "l"@, images) {
            Err(fault) => Err(fault),
            Ok(light) => Ok(Appearance { light, dark }),
        },
    }
}

/// The appearance embedded in a schedule, if there is one.
pub open spec fn embedded_appearance(
    dictionary: Map<Seq<char>, PlistModel>,
    images: nat,
) -> Result<Option<Appearance>, Fault> {
    if !dictionary.contains_key("ap"@) {
        Ok(None)
    } else {
        match dictionary["ap"@] {
            PlistModel::Dictionary(inner) => match appearance_read(inner, images) {
                Err(fault) => Err(fault),
                Ok(appearance) => Ok(Some(appearance)),
            },
            _ => Err(Fault::Metadata("ap is not a dictionary"@)),
        }
    }
}

/// One point of a time schedule.
pub open spec fn time_point_read(item: PlistModel, images: nat) -> Result<TimePoint, Fault> {
    match item {
        PlistModel::Dictionary(point) => match image_read(point, "i"@, images) {
            Err(fault) => Err(fault),
            Ok(image) => match number_read(point, "t"@) {
                Err(fault) => Err(fault),
                Ok(number) => match super::model::below(number, super::fraction::ONE) {
                    Some(bits) => Ok(TimePoint { image, time: NormalizedTime { bits } }),
                    None => Err(Fault::Metadata(ModelError::InvalidTime.text())),
                },
            },
        },
        _ => Err(Fault::Metadata("h24 point is not a dictionary"@)),
    }
}

/// The points of a time schedule from `index` on, after `found`.
pub open spec fn time_points_read(
    items: Seq<PlistModel>,
    images: nat,
    index: nat,
    found: Seq<TimePoint>,
) -> Result<Seq<TimePoint>, Fault>
    decreases items.len() - index,
{
    if index >= items.len() {
        Ok(found)
    } else {
        match time_point_read(items[index as int], images) {
            Err(fault) => Err(fault),
            Ok(point) => time_points_read(items, images, index + 1, found.push(point)),
        }
    }
}

/// One point of a solar schedule.
pub open spec fn solar_point_read(item: PlistModel, images: nat) -> Result<SolarPoint, Fault> {
    match item {
        PlistModel::Dictionary(point) => match image_read(point, "i"@, images) {
            Err(fault) => Err(fault),
            Ok(image) => match number_read(point, "a"@) {
                Err(fault) => Err(fault),
                Ok(altitude) => match number_read(point, "z"@) {
                    Err(fault) => Err(fault),
                    Ok(azimuth) => match (
                        super::model::altitude_of(altitude),
                        super::model::below(azimuth, super::model::FULL_CIRCLE),
                    ) {
                        (Some(altitude_bits), Some(azimuth_bits)) => Ok(
                            SolarPoint {
                                image,
                                position: SolarPosition { altitude_bits, azimuth_bits },
                            },
                        ),
                        _ => Err(Fault::Metadata(ModelError::InvalidPosition.text())),
                    },
                },
            },
        },
        _ => Err(Fault::Metadata("solar point is not a dictionary"@)),
    }
}

/// The points of a solar schedule from `index` on, after `found`.
pub open spec fn solar_points_read(
    items: Seq<PlistModel>,
    images: nat,
    index: nat,
    found: Seq<SolarPoint>,
) -> Result<Seq<SolarPoint>, Fault>
    decreases items.len() - index,
{
    if index >= items.len() {
        Ok(found)
    } else {
        match solar_point_read(items[index as int], images) {
            Err(fault) => Err(fault),
            Ok(point) => solar_points_read(items, images, index + 1, found.push(point)),
        }
    }
}

/// A property by its contents.
pub enum PropertyModel {
    Time(Seq<TimePoint>, Option<Appearance>),
    Solar(Seq<SolarPoint>, Option<Appearance>),
    Appearance(Appearance),
}

/// The contents of a property.
pub open spec fn property_model(value: PropertyValue) -> PropertyModel {
    match value {
        PropertyValue::Time(schedule) => PropertyModel::Time(
            schedule.listed(),
            schedule.embedded(),
        ),
        PropertyValue::Solar(schedule) => PropertyModel::Solar(
            schedule.listed(),
            schedule.embedded(),
        ),
        PropertyValue::Appearance(appearance) => PropertyModel::Appearance(appearance),
    }
}

/// The property name a model stands for.
pub open spec fn property_kind(model: PropertyModel) -> AppleProperty {
    match model {
        PropertyModel::Time(_, _) => AppleProperty::Time,
        PropertyModel::Solar(_, _) => AppleProperty::Solar,
        PropertyModel::Appearance(_) => AppleProperty::Appearance,
    }
}

/// The items of the array under a key.
pub open spec fn items_read(dictionary: Map<Seq<char>, PlistModel>, key: Seq<char>) -> Result<
    Seq<PlistModel>,
    Fault,
> {
    if !dictionary.contains_key(key) {
        Err(Fault::Metadata(key + " is not an array"@))
    } else {
        match dictionary[key] {
            PlistModel::Array(items) => Ok(items),
            _ => Err(Fault::Metadata(key + " is not an array"@)),
        }
    }
}

/// What a property's dictionary declares.
pub open spec fn property_read(
    name: PropertyName,
    dictionary: Map<Seq<char>, PlistModel>,
    images: nat,
    limits: Limits,
) -> Result<PropertyModel, Fault> {
    match name {
        PropertyName::H24 => match items_read(dictionary, "ti"@) {
            Err(fault) => Err(fault),
            Ok(items) => if items.len() == 0 || items.len() > limits.max_schedule_points {
                Err(Fault::Metadata("invalid h24 point count"@))
            } else {
                match time_points_read(items, images, 0, Seq::empty()) {
                    Err(fault) => Err(fault),
                    Ok(points) => match embedded_appearance(dictionary, images) {
                        Err(fault) => Err(fault),
                        Ok(appearance) => Ok(PropertyModel::Time(points, appearance)),
                    },
                }
            },
        },
        PropertyName::Solar => match items_read(dictionary, "si"@) {
            Err(fault) => Err(fault),
            Ok(items) => if items.len() == 0 || items.len() > limits.max_schedule_points {
                Err(Fault::Metadata("invalid solar point count"@))
            } else {
                match solar_points_read(items, images, 0, Seq::empty()) {
                    Err(fault) => Err(fault),
                    Ok(points) => match embedded_appearance(dictionary, images) {
                        Err(fault) => Err(fault),
                        Ok(appearance) => Ok(PropertyModel::Solar(points, appearance)),
                    },
                }
            },
        },
        PropertyName::Apr => match appearance_read(dictionary, images) {
            Err(fault) => Err(fault),
            Ok(appearance) => Ok(PropertyModel::Appearance(appearance)),
        },
    }
}

/// What a property list declares, once read.
pub open spec fn value_read(
    name: PropertyName,
    value: Result<PlistModel, Seq<char>>,
    prefix: Seq<char>,
    images: nat,
    limits: Limits,
) -> Result<PropertyModel, Fault> {
    match value {
        Err(text) => Err(Fault::Metadata(prefix + text)),
        Ok(PlistModel::Dictionary(dictionary)) => property_read(name, dictionary, images, limits),
        Ok(_) => Err(Fault::Metadata("property list root is not a dictionary"@)),
    }
}

/// The property that a list encodes. A list that does not carry the binary magic
/// is read as XML.
pub open spec fn property_parsed(
    name: PropertyName,
    bytes: Seq<u8>,
    images: nat,
    limits: Limits,
) -> Result<PropertyModel, Fault> {
    if super::plist_binary::announced(bytes) {
        match super::plist_binary::inspected(bytes, limits) {
            Err(fault) => Err(fault),
            Ok(_) => value_read(
                name,
                binary_value(bytes),
                "invalid binary property list: "@,
                images,
                limits,
            ),
        }
    } else {
        match xml_inspected(bytes, limits) {
            Err(fault) => Err(fault),
            Ok(_) => value_read(
                name,
                xml_value(bytes),
                "invalid XML property list: "@,
                images,
                limits,
            ),
        }
    }
}

/// `key` followed by `text`.
fn key_error(key: &str, text: &'static str) -> (error: Error)
    ensures
        error@ == Fault::Metadata(key@ + text@),
{
    let mut message = key.to_owned();
    message.append(text);
    Error::Metadata(message)
}

fn number(dictionary: &plist::Dictionary, key: &str) -> (result: Result<Number, Error>)
    ensures
        super::heic::outcome(result, result->Ok_0) == number_read(
            dictionary_contents(*dictionary),
            key@,
        ),
{
    let value = match get(dictionary, key) {
        Some(value) => value,
        None => return Err(metadata_error("missing ", key)),
    };
    match stored_number(value) {
        StoredNumber::Real(bits) => if is_finite(bits) {
            Ok(Number::Real(bits))
        } else {
            Err(key_error(key, " is not finite"))
        },
        StoredNumber::Integer(Some(signed), _) => Ok(Number::Integer(signed as i128)),
        StoredNumber::Integer(None, Some(unsigned)) => Ok(Number::Integer(unsigned as i128)),
        StoredNumber::Integer(None, None) => Err(key_error(key, " is outside its numeric domain")),
        StoredNumber::Other => Err(key_error(key, " is not numeric")),
    }
}

fn image_reference(dictionary: &plist::Dictionary, key: &str, images: &TopLevelImages) -> (result:
    Result<ImageReference, Error>)
    ensures
        super::heic::outcome(result, result->Ok_0) == image_read(
            dictionary_contents(*dictionary),
            key@,
            images@.len(),
        ),
{
    let index = match get(dictionary, key) {
        Some(value) => match stored_number(value) {
            StoredNumber::Integer(_, unsigned) => unsigned,
            _ => None,
        },
        None => None,
    };
    let position: usize = match index {
        Some(index) => if index > usize::MAX as u64 {
            return Err(key_error(key, " is not a valid image index"));
        } else {
            index as usize
        },
        None => return Err(key_error(key, " is not a valid image index")),
    };
    let image = ImageReference::from_position(position);
    if images.resolve(image).is_none() {
        return Err(key_error(key, " references a missing image"));
    }
    Ok(image)
}

fn parse_appearance(dictionary: &plist::Dictionary, images: &TopLevelImages) -> (result: Result<
    Appearance,
    Error,
>)
    ensures
        super::heic::outcome(result, result->Ok_0) == appearance_read(
            dictionary_contents(*dictionary),
            images@.len(),
        ),
{
    let dark = image_reference(dictionary, "d", images)?;
    let light = image_reference(dictionary, "l", images)?;
    Ok(Appearance { light, dark })
}

fn optional_appearance(dictionary: &plist::Dictionary, images: &TopLevelImages) -> (result: Result<
    Option<Appearance>,
    Error,
>)
    ensures
        super::heic::outcome(result, result->Ok_0) == embedded_appearance(
            dictionary_contents(*dictionary),
            images@.len(),
        ),
{
    match get(dictionary, "ap") {
        None => Ok(None),
        Some(value) => match as_dictionary(value) {
            None => Err(Error::Metadata("ap is not a dictionary".to_owned())),
            Some(inner) => {
                let appearance = parse_appearance(inner, images)?;
                Ok(Some(appearance))
            },
        },
    }
}

fn required_array<'a>(dictionary: &'a plist::Dictionary, key: &str) -> (result: Result<
    &'a Vec<plist::Value>,
    Error,
>)
    ensures
        super::heic::outcome(
            result,
            result->Ok_0@.map_values(|item: plist::Value| value_contents(item)),
        ) == items_read(dictionary_contents(*dictionary), key@),
{
    match get(dictionary, key) {
        Some(value) => match as_array(value) {
            Some(items) => Ok(items),
            None => Err(key_error(key, " is not an array")),
        },
        None => Err(key_error(key, " is not an array")),
    }
}

fn parse_time_point(item: &plist::Value, images: &TopLevelImages) -> (result: Result<
    TimePoint,
    Error,
>)
    ensures
        super::heic::outcome(result, result->Ok_0) == time_point_read(
            value_contents(*item),
            images@.len(),
        ),
{
    let point = match as_dictionary(item) {
        Some(point) => point,
        None => return Err(Error::Metadata("h24 point is not a dictionary".to_owned())),
    };
    let image = image_reference(point, "i", images)?;
    let number = number(point, "t")?;
    match NormalizedTime::new(number) {
        Ok(time) => Ok(TimePoint { image, time }),
        Err(error) => Err(Error::Metadata(error.message().to_owned())),
    }
}

fn parse_solar_point(item: &plist::Value, images: &TopLevelImages) -> (result: Result<
    SolarPoint,
    Error,
>)
    ensures
        super::heic::outcome(result, result->Ok_0) == solar_point_read(
            value_contents(*item),
            images@.len(),
        ),
{
    let point = match as_dictionary(item) {
        Some(point) => point,
        None => return Err(Error::Metadata("solar point is not a dictionary".to_owned())),
    };
    let image = image_reference(point, "i", images)?;
    let altitude = number(point, "a")?;
    let azimuth = number(point, "z")?;
    match SolarPosition::new(altitude, azimuth) {
        Ok(position) => Ok(SolarPoint { image, position }),
        Err(error) => Err(Error::Metadata(error.message().to_owned())),
    }
}

#[verifier::loop_isolation(false)]
fn parse_h24(dictionary: &plist::Dictionary, images: &TopLevelImages, limits: &Limits) -> (result:
    Result<PropertyValue, Error>)
    ensures
        super::heic::outcome(result, property_model(result->Ok_0)) == property_read(
            PropertyName::H24,
            dictionary_contents(*dictionary),
            images@.len(),
            *limits,
        ),
{
    let items = required_array(dictionary, "ti")?;
    let ghost models = items@.map_values(|item: plist::Value| value_contents(item));
    if items.len() == 0 || items.len() > limits.max_schedule_points {
        return Err(Error::Metadata("invalid h24 point count".to_owned()));
    }
    let mut points: Vec<TimePoint> = Vec::with_capacity(items.len());
    assert(points@ =~= Seq::<TimePoint>::empty());
    let mut index: usize = 0;
    while index < items.len()
        invariant
            index <= items@.len(),
            points@.len() == index,
            time_points_read(models, images@.len(), 0, Seq::empty()) == time_points_read(
                models,
                images@.len(),
                index as nat,
                points@,
            ),
        decreases items@.len() - index,
    {
        assert(models[index as int] == value_contents(items@[index as int]));
        let point = parse_time_point(&items[index], images)?;
        points.push(point);
        index += 1;
    }
    let appearance = optional_appearance(dictionary, images)?;
    match Schedule::new(points, appearance) {
        Ok(schedule) => Ok(PropertyValue::Time(schedule)),
        Err(error) => Err(Error::Metadata(error.message().to_owned())),
    }
}

#[verifier::loop_isolation(false)]
fn parse_solar(dictionary: &plist::Dictionary, images: &TopLevelImages, limits: &Limits) -> (result:
    Result<PropertyValue, Error>)
    ensures
        super::heic::outcome(result, property_model(result->Ok_0)) == property_read(
            PropertyName::Solar,
            dictionary_contents(*dictionary),
            images@.len(),
            *limits,
        ),
{
    let items = required_array(dictionary, "si")?;
    let ghost models = items@.map_values(|item: plist::Value| value_contents(item));
    if items.len() == 0 || items.len() > limits.max_schedule_points {
        return Err(Error::Metadata("invalid solar point count".to_owned()));
    }
    let mut points: Vec<SolarPoint> = Vec::with_capacity(items.len());
    assert(points@ =~= Seq::<SolarPoint>::empty());
    let mut index: usize = 0;
    while index < items.len()
        invariant
            index <= items@.len(),
            points@.len() == index,
            solar_points_read(models, images@.len(), 0, Seq::empty()) == solar_points_read(
                models,
                images@.len(),
                index as nat,
                points@,
            ),
        decreases items@.len() - index,
    {
        assert(models[index as int] == value_contents(items@[index as int]));
        let point = parse_solar_point(&items[index], images)?;
        points.push(point);
        index += 1;
    }
    let appearance = optional_appearance(dictionary, images)?;
    match Schedule::new(points, appearance) {
        Ok(schedule) => Ok(PropertyValue::Solar(schedule)),
        Err(error) => Err(Error::Metadata(error.message().to_owned())),
    }
}

/// Reads the property that a list encodes.
///
/// The binary magic is unambiguous, so anything else is offered to the XML
/// reader: a property may legally begin with an element, whitespace, a comment,
/// or a byte-order mark.
pub fn parse_property(
    name: PropertyName,
    bytes: &[u8],
    images: &TopLevelImages,
    limits: &Limits,
) -> (result: Result<(AppleProperty, PropertyValue), Error>)
    ensures
        super::heic::outcome(result, property_model(result->Ok_0.1)) == property_parsed(
            name,
            bytes@,
            images@.len(),
            *limits,
        ),
        result matches Ok((kind, value)) ==> kind == property_kind(property_model(value)),
{
    let value = if is_binary_plist(bytes) {
        preflight_binary_plist(bytes, limits)?;
        match read_binary_value(bytes) {
            Ok(value) => value,
            Err(text) => return Err(
                metadata_error("invalid binary property list: ", text.as_str()),
            ),
        }
    } else {
        preflight_xml_plist(bytes, limits)?;
        match read_xml_value(bytes) {
            Ok(value) => value,
            Err(text) => return Err(metadata_error("invalid XML property list: ", text.as_str())),
        }
    };
    let dictionary = match as_dictionary(&value) {
        Some(dictionary) => dictionary,
        None => return Err(Error::Metadata("property list root is not a dictionary".to_owned())),
    };
    match name {
        PropertyName::H24 => {
            let value = parse_h24(dictionary, images, limits)?;
            Ok((AppleProperty::Time, value))
        },
        PropertyName::Solar => {
            let value = parse_solar(dictionary, images, limits)?;
            Ok((AppleProperty::Solar, value))
        },
        PropertyName::Apr => {
            let appearance = parse_appearance(dictionary, images)?;
            Ok((AppleProperty::Appearance, PropertyValue::Appearance(appearance)))
        },
    }
}

/// The state after `read` events of an XML property list, as long as none of them
/// ends it or is refused.
pub open spec fn xml_state(bytes: Seq<u8>, limits: Limits, read: nat) -> Option<Expansion>
    decreases read,
{
    if read == 0 {
        Some(Expansion { objects: 0, memory: 0, depth: 0, root: false })
    } else {
        let before = (read - 1) as nat;
        let bindings = limits.max_xml_events as nat;
        match (xml_state(bytes, limits, before), super::xml::xml_event(bytes, bindings, before)) {
            (Some(_), Ok(Token::Eof)) => None,
            (Some(state), Ok(token)) => if closes_past_date(
                date_text(bytes, bindings, before),
                token,
            ) {
                None
            } else {
                match element_stepped(
                    state,
                    token,
                    local_of(bytes, bindings, read, token),
                    limits,
                ) {
                    Ok(next) => Some(next),
                    Err(_) => None,
                }
            },
            _ => None,
        }
    }
}

/// No element of an XML property list that is accepted lies deeper than the ceiling.
pub proof fn law_accepted_xml_lists_are_not_too_deep(bytes: Seq<u8>, limits: Limits, read: nat)
    requires
        xml_inspected(bytes, limits) is Ok,
    ensures
        xml_state(bytes, limits, read) matches Some(state) ==> {
            &&& state.depth <= limits.max_plist_depth
            &&& super::xml::xml_event(bytes, limits.max_xml_events as nat, read) matches Ok(token)
                ==> (token is Start || token is Empty ==> state.depth + 1
                <= limits.max_plist_depth)
        },
{
    lemma_xml_state(bytes, limits, read);
}

proof fn lemma_xml_state(bytes: Seq<u8>, limits: Limits, read: nat)
    requires
        xml_inspected(bytes, limits) is Ok,
    ensures
        xml_state(bytes, limits, read) matches Some(state) ==> xml_expanded_from(
            bytes,
            limits,
            read,
            state,
        ) is Ok && state.depth <= limits.max_plist_depth,
    decreases read,
{
    if read > 0 {
        lemma_xml_state(bytes, limits, (read - 1) as nat);
    }
}

// ---------------------------------------------------------------------------
// Laws
// ---------------------------------------------------------------------------

/// Whether a dictionary gives an image's index under a key, among `images` images.
pub open spec fn indexes(
    dictionary: Map<Seq<char>, PlistModel>,
    key: Seq<char>,
    image: ImageReference,
    images: nat,
) -> bool {
    &&& dictionary.contains_key(key)
    &&& dictionary[key] matches PlistModel::Integer(_, Some(index)) && index == image.position
    &&& image.position < images
}

/// Whether a dictionary gives an appearance: the dark image under `d`, the light one
/// under `l`.
pub open spec fn shows(
    dictionary: Map<Seq<char>, PlistModel>,
    appearance: Appearance,
    images: nat,
) -> bool {
    indexes(dictionary, "d"@, appearance.dark, images) && indexes(
        dictionary,
        "l"@,
        appearance.light,
        images,
    )
}

/// Whether the appearance of a schedule is the one under `ap`, and none where there is
/// no such key.
pub open spec fn embeds(
    dictionary: Map<Seq<char>, PlistModel>,
    appearance: Option<Appearance>,
    images: nat,
) -> bool {
    match appearance {
        Some(appearance) => dictionary.contains_key("ap"@) && (dictionary["ap"@]
            matches PlistModel::Dictionary(inner) && shows(inner, appearance, images)),
        None => !dictionary.contains_key("ap"@),
    }
}

/// Whether a dictionary gives a number under a key: a double, or an integer.
pub open spec fn numbers(
    dictionary: Map<Seq<char>, PlistModel>,
    key: Seq<char>,
    number: Number,
) -> bool {
    &&& dictionary.contains_key(key)
    &&& match dictionary[key] {
        PlistModel::Real(bits) => number == Number::Real(bits) && bits % 0x8000_0000_0000_0000
            < 0x7ff0_0000_0000_0000,
        PlistModel::Integer(Some(signed), _) => number == Number::Integer(signed as i128),
        PlistModel::Integer(None, Some(unsigned)) => number == Number::Integer(unsigned as i128),
        _ => false,
    }
}

/// Whether an item of a list gives a point of a time schedule.
pub open spec fn times(item: PlistModel, point: TimePoint, time: Number, images: nat) -> bool {
    &&& item matches PlistModel::Dictionary(fields) && indexes(fields, "i"@, point.image, images)
        && numbers(fields, "t"@, time)
    &&& super::model::below(time, super::fraction::ONE) == Some(point.time.bits)
}

/// Whether an item of a list gives a point of a solar schedule.
pub open spec fn places(
    item: PlistModel,
    point: SolarPoint,
    altitude: Number,
    azimuth: Number,
    images: nat,
) -> bool {
    &&& item matches PlistModel::Dictionary(fields) && indexes(fields, "i"@, point.image, images)
        && numbers(fields, "a"@, altitude) && numbers(fields, "z"@, azimuth)
    &&& super::model::altitude_of(altitude) == Some(point.position.altitude_bits)
    &&& super::model::below(azimuth, super::model::FULL_CIRCLE) == Some(point.position.azimuth_bits)
}

/// Whether an item of a list gives a point of a time schedule, by some number.
pub open spec fn timed(item: PlistModel, point: TimePoint, images: nat) -> bool {
    exists|time: Number| #[trigger] times(item, point, time, images)
}

/// Whether an item of a list gives a point of a solar schedule, by some numbers.
pub open spec fn positioned(item: PlistModel, point: SolarPoint, images: nat) -> bool {
    exists|altitude: Number, azimuth: Number| #[trigger]
        places(item, point, altitude, azimuth, images)
}

/// Whether a dictionary lists a time schedule under `ti`, point for item.
pub open spec fn lists_times(
    dictionary: Map<Seq<char>, PlistModel>,
    points: Seq<TimePoint>,
    images: nat,
    limits: Limits,
) -> bool {
    &&& dictionary.contains_key("ti"@)
    &&& dictionary["ti"@] matches PlistModel::Array(items) && items.len() == points.len() && 1
        <= items.len() <= limits.max_schedule_points && forall|index: int|
        0 <= index < items.len() ==> timed(#[trigger] items[index], points[index], images)
}

/// Whether a dictionary lists a solar schedule under `si`, point for item.
pub open spec fn lists_positions(
    dictionary: Map<Seq<char>, PlistModel>,
    points: Seq<SolarPoint>,
    images: nat,
    limits: Limits,
) -> bool {
    &&& dictionary.contains_key("si"@)
    &&& dictionary["si"@] matches PlistModel::Array(items) && items.len() == points.len() && 1
        <= items.len() <= limits.max_schedule_points && forall|index: int|
        0 <= index < items.len() ==> positioned(#[trigger] items[index], points[index], images)
}

proof fn lemma_image_read(dictionary: Map<Seq<char>, PlistModel>, key: Seq<char>, images: nat)
    requires
        images <= usize::MAX,
    ensures
        forall|image: ImageReference|
            image_read(dictionary, key, images) == Ok::<ImageReference, Fault>(image)
                <==> #[trigger] indexes(dictionary, key, image, images),
{
    assert forall|image: ImageReference|
        image_read(dictionary, key, images) == Ok::<ImageReference, Fault>(image)
            <==> #[trigger] indexes(dictionary, key, image, images) by {
        if let Ok(found) = image_read(dictionary, key, images) {
            assert(indexes(dictionary, key, found, images));
            if indexes(dictionary, key, image, images) {
                assert(found.position == image.position);
                assert(found == image);
            }
        }
    }
}

proof fn lemma_number_read(dictionary: Map<Seq<char>, PlistModel>, key: Seq<char>)
    ensures
        forall|number: Number|
            number_read(dictionary, key) == Ok::<Number, Fault>(number) <==> #[trigger] numbers(
                dictionary,
                key,
                number,
            ),
{
}

/// Of the appearances that images can show, a dictionary is read as the one it gives,
/// and refused where it gives none.
pub proof fn law_appearances_are_read_as_given(
    dictionary: Map<Seq<char>, PlistModel>,
    appearance: Appearance,
    images: nat,
    limits: Limits,
)
    requires
        images <= usize::MAX,
    ensures
        property_read(PropertyName::Apr, dictionary, images, limits) == Ok::<PropertyModel, Fault>(
            PropertyModel::Appearance(appearance),
        ) <==> shows(dictionary, appearance, images),
        property_read(PropertyName::Apr, dictionary, images, limits) matches Ok(model) ==> model
            is Appearance,
{
    lemma_image_read(dictionary, "d"@, images);
    lemma_image_read(dictionary, "l"@, images);
    let _ = indexes(dictionary, "d"@, appearance.dark, images);
    let _ = indexes(dictionary, "l"@, appearance.light, images);
    if let Ok(read) = appearance_read(dictionary, images) {
        assert(indexes(dictionary, "d"@, read.dark, images));
        assert(indexes(dictionary, "l"@, read.light, images));
    }
}

proof fn lemma_embeds(
    dictionary: Map<Seq<char>, PlistModel>,
    appearance: Option<Appearance>,
    images: nat,
)
    requires
        images <= usize::MAX,
    ensures
        embedded_appearance(dictionary, images) == Ok::<Option<Appearance>, Fault>(appearance)
            <==> embeds(dictionary, appearance, images),
{
    if dictionary.contains_key("ap"@) {
        if let PlistModel::Dictionary(inner) = dictionary["ap"@] {
            lemma_image_read(inner, "d"@, images);
            lemma_image_read(inner, "l"@, images);
            if let Some(shown) = appearance {
                let _ = indexes(inner, "d"@, shown.dark, images);
                let _ = indexes(inner, "l"@, shown.light, images);
            }
            if let Ok(read) = appearance_read(inner, images) {
                assert(indexes(inner, "d"@, read.dark, images));
                assert(indexes(inner, "l"@, read.light, images));
            }
        }
    }
}

proof fn lemma_time_point(item: PlistModel, point: TimePoint, images: nat)
    requires
        images <= usize::MAX,
    ensures
        time_point_read(item, images) == Ok::<TimePoint, Fault>(point) <==> exists|time: Number|
            #[trigger] times(item, point, time, images),
{
    if let PlistModel::Dictionary(fields) = item {
        lemma_image_read(fields, "i"@, images);
        lemma_number_read(fields, "t"@);
        let _ = indexes(fields, "i"@, point.image, images);
        if let Ok(time) = number_read(fields, "t"@) {
            assert(numbers(fields, "t"@, time));
            if time_point_read(item, images) == Ok::<TimePoint, Fault>(point) {
                assert(times(item, point, time, images));
            }
        }
        if exists|time: Number| #[trigger] times(item, point, time, images) {
            let time = choose|time: Number| #[trigger] times(item, point, time, images);
            assert(numbers(fields, "t"@, time));
            let read = time_point_read(item, images)->Ok_0;
            assert(read.image == point.image && read.time.bits == point.time.bits);
            assert(read == point);
        }
    }
}

proof fn lemma_time_points(
    items: Seq<PlistModel>,
    images: nat,
    index: nat,
    found: Seq<TimePoint>,
    points: Seq<TimePoint>,
)
    requires
        index <= items.len(),
        found.len() == index,
    ensures
        time_points_read(items, images, index, found) == Ok::<Seq<TimePoint>, Fault>(points) <==> {
            &&& points.len() == items.len()
            &&& points.take(index as int) == found
            &&& forall|at: int|
                index <= at < items.len() ==> time_point_read(#[trigger] items[at], images)
                    == Ok::<TimePoint, Fault>(points[at])
        },
    decreases items.len() - index,
{
    if index == items.len() {
        if points.len() == items.len() {
            assert(points.take(index as int) =~= points);
        }
        assert(found.take(index as int) =~= found);
    } else {
        match time_point_read(items[index as int], images) {
            Ok(point) => {
                lemma_time_points(items, images, index + 1, found.push(point), points);
                if points.len() == items.len() {
                    if points.take(index as int) == found && points[index as int] == point {
                        assert(points.take(index as int + 1) =~= found.push(point));
                    }
                    if points.take(index as int + 1) == found.push(point) {
                        assert(points.take(index as int) =~= found) by {
                            assert forall|at: int| 0 <= at < index implies points[at] == found[at]
                                by {
                                assert(points.take(index as int + 1)[at] == found.push(point)[at]);
                            }
                        }
                        assert(points[index as int] == points.take(index as int + 1)[index as int]);
                    }
                }
            },
            Err(_) => {},
        }
    }
}

/// A time schedule is read as its list gives it: one point for each item, in the same
/// order, with the image and the time that stand there, and the appearance that is
/// embedded. A list that gives none is refused.
pub proof fn law_time_schedules_are_read_as_given(
    dictionary: Map<Seq<char>, PlistModel>,
    points: Seq<TimePoint>,
    appearance: Option<Appearance>,
    images: nat,
    limits: Limits,
)
    requires
        images <= usize::MAX,
    ensures
        property_read(PropertyName::H24, dictionary, images, limits) == Ok::<PropertyModel, Fault>(
            PropertyModel::Time(points, appearance),
        ) <==> lists_times(dictionary, points, images, limits) && embeds(
            dictionary,
            appearance,
            images,
        ),
        property_read(PropertyName::H24, dictionary, images, limits) matches Ok(model) ==> model
            is Time,
{
    lemma_embeds(dictionary, appearance, images);
    if dictionary.contains_key("ti"@) {
        if let PlistModel::Array(items) = dictionary["ti"@] {
            lemma_time_points(items, images, 0, Seq::empty(), points);
            assert(points.take(0) =~= Seq::<TimePoint>::empty());
            if points.len() == items.len() {
                assert forall|at: int| 0 <= at < items.len() implies (time_point_read(
                    #[trigger] items[at],
                    images,
                ) == Ok::<TimePoint, Fault>(points[at]) <==> timed(
                    items[at],
                    points[at],
                    images,
                )) by {
                    lemma_time_point(items[at], points[at], images);
                }
                if lists_times(dictionary, points, images, limits) {
                    assert forall|at: int| 0 <= at < items.len() implies time_point_read(
                        #[trigger] items[at],
                        images,
                    ) == Ok::<TimePoint, Fault>(points[at]) by {}
                }
            }
        }
    }
}

proof fn lemma_solar_point(item: PlistModel, point: SolarPoint, images: nat)
    requires
        images <= usize::MAX,
    ensures
        solar_point_read(item, images) == Ok::<SolarPoint, Fault>(point) <==> exists|
            altitude: Number,
            azimuth: Number,
        | #[trigger]
            places(item, point, altitude, azimuth, images),
{
    if let PlistModel::Dictionary(fields) = item {
        lemma_image_read(fields, "i"@, images);
        lemma_number_read(fields, "a"@);
        lemma_number_read(fields, "z"@);
        let _ = indexes(fields, "i"@, point.image, images);
        if let Ok(altitude) = number_read(fields, "a"@) {
            if let Ok(azimuth) = number_read(fields, "z"@) {
                assert(numbers(fields, "a"@, altitude));
                assert(numbers(fields, "z"@, azimuth));
                if solar_point_read(item, images) == Ok::<SolarPoint, Fault>(point) {
                    assert(places(item, point, altitude, azimuth, images));
                }
            }
        }
        if exists|altitude: Number, azimuth: Number| #[trigger]
            places(item, point, altitude, azimuth, images) {
            let (altitude, azimuth) = choose|altitude: Number, azimuth: Number| #[trigger]
                places(item, point, altitude, azimuth, images);
            assert(numbers(fields, "a"@, altitude));
            assert(numbers(fields, "z"@, azimuth));
            let read = solar_point_read(item, images)->Ok_0;
            assert(read == point);
        }
    }
}

proof fn lemma_solar_points(
    items: Seq<PlistModel>,
    images: nat,
    index: nat,
    found: Seq<SolarPoint>,
    points: Seq<SolarPoint>,
)
    requires
        index <= items.len(),
        found.len() == index,
    ensures
        solar_points_read(items, images, index, found) == Ok::<Seq<SolarPoint>, Fault>(points)
            <==> {
            &&& points.len() == items.len()
            &&& points.take(index as int) == found
            &&& forall|at: int|
                index <= at < items.len() ==> solar_point_read(#[trigger] items[at], images)
                    == Ok::<SolarPoint, Fault>(points[at])
        },
    decreases items.len() - index,
{
    if index == items.len() {
        if points.len() == items.len() {
            assert(points.take(index as int) =~= points);
        }
        assert(found.take(index as int) =~= found);
    } else {
        match solar_point_read(items[index as int], images) {
            Ok(point) => {
                lemma_solar_points(items, images, index + 1, found.push(point), points);
                if points.len() == items.len() {
                    if points.take(index as int) == found && points[index as int] == point {
                        assert(points.take(index as int + 1) =~= found.push(point));
                    }
                    if points.take(index as int + 1) == found.push(point) {
                        assert(points.take(index as int) =~= found) by {
                            assert forall|at: int| 0 <= at < index implies points[at] == found[at]
                                by {
                                assert(points.take(index as int + 1)[at] == found.push(point)[at]);
                            }
                        }
                        assert(points[index as int] == points.take(index as int + 1)[index as int]);
                    }
                }
            },
            Err(_) => {},
        }
    }
}

/// A solar schedule is read as its list gives it: one point for each item, in the same
/// order, with the image and the position that stand there, and the appearance that is
/// embedded. A list that gives none is refused.
pub proof fn law_solar_schedules_are_read_as_given(
    dictionary: Map<Seq<char>, PlistModel>,
    points: Seq<SolarPoint>,
    appearance: Option<Appearance>,
    images: nat,
    limits: Limits,
)
    requires
        images <= usize::MAX,
    ensures
        property_read(PropertyName::Solar, dictionary, images, limits) == Ok::<
            PropertyModel,
            Fault,
        >(PropertyModel::Solar(points, appearance)) <==> lists_positions(
            dictionary,
            points,
            images,
            limits,
        ) && embeds(dictionary, appearance, images),
        property_read(PropertyName::Solar, dictionary, images, limits) matches Ok(model) ==> model
            is Solar,
{
    lemma_embeds(dictionary, appearance, images);
    if dictionary.contains_key("si"@) {
        if let PlistModel::Array(items) = dictionary["si"@] {
            lemma_solar_points(items, images, 0, Seq::empty(), points);
            assert(points.take(0) =~= Seq::<SolarPoint>::empty());
            if points.len() == items.len() {
                assert forall|at: int| 0 <= at < items.len() implies (solar_point_read(
                    #[trigger] items[at],
                    images,
                ) == Ok::<SolarPoint, Fault>(points[at]) <==> positioned(
                    items[at],
                    points[at],
                    images,
                )) by {
                    lemma_solar_point(items[at], points[at], images);
                }
                if lists_positions(dictionary, points, images, limits) {
                    assert forall|at: int| 0 <= at < items.len() implies solar_point_read(
                        #[trigger] items[at],
                        images,
                    ) == Ok::<SolarPoint, Fault>(points[at]) by {}
                }
            }
        }
    }
}

// ---------------------------------------------------------------------------
// What the preflight of an XML property list counts
// ---------------------------------------------------------------------------

/// A list is markup where an angle bracket is the first thing in it, a byte-order mark and
/// white space aside.
pub proof fn law_markup_starts_with_a_bracket(bytes: Seq<u8>, mark: int)
    ensures
        ({
            let marked = bytes.len() >= 3 && bytes[0] == 0xef && bytes[1] == 0xbb && bytes[2]
                == 0xbf;
            let first = if marked {
                3int
            } else {
                0
            };
            let blank = |at: int|
                bytes[at] == 0x20 || bytes[at] == 0x09 || bytes[at] == 0x0a || bytes[at] == 0x0c
                    || bytes[at] == 0x0d;
            first <= mark < bytes.len() && (forall|at: int|
                first <= at < mark ==> #[trigger] blank(at)) && !blank(mark) ==> (
            looks_like_markup(bytes) <==> bytes[mark] == 0x3c)
        }),
        looks_like_markup(bytes) ==> exists|at: int|
            0 <= at < bytes.len() && #[trigger] bytes[at] == 0x3c,
{
    let first = content_start(bytes);
    let found = mark_from(bytes, first);
    lemma_mark(bytes, first);
    let blank = |at: int|
        bytes[at] == 0x20 || bytes[at] == 0x09 || bytes[at] == 0x0a || bytes[at] == 0x0c
            || bytes[at] == 0x0d;
    if first <= mark < bytes.len() && (forall|at: int| first <= at < mark ==> #[trigger] blank(at))
        && !blank(mark) {
        if found < mark {
            assert(blank(found));
        }
        if mark < found {
            assert(space_byte(bytes[mark]));
        }
    }
    if looks_like_markup(bytes) {
        assert(bytes[found] == 0x3c);
    }
}

proof fn lemma_mark(bytes: Seq<u8>, from: int)
    requires
        0 <= from <= bytes.len(),
    ensures
        from <= mark_from(bytes, from) <= bytes.len(),
        forall|at: int| from <= at < mark_from(bytes, from) ==> space_byte(#[trigger] bytes[at]),
        mark_from(bytes, from) < bytes.len() ==> !space_byte(bytes[mark_from(bytes, from)]),
    decreases bytes.len() - from,
{
    if from < bytes.len() && space_byte(bytes[from]) {
        lemma_mark(bytes, from + 1);
    }
}

/// The elements that hold a value are those of a property list, and keys; no other
/// element costs anything.
pub proof fn law_values_and_keys_cost(local: Seq<char>, state: Expansion, limits: Limits)
    ensures
        allocates(local) <==> seq![
            "array"@,
            "data"@,
            "date"@,
            "dict"@,
            "false"@,
            "integer"@,
            "key"@,
            "real"@,
            "string"@,
            "true"@,
        ].contains(local),
        ({
            let charged = element_charged(state, local, limits);
            let fits = state.objects < limits.max_expanded_plist_objects && state.memory + 64
                <= limits.max_expanded_plist_bytes;
            &&& !allocates(local) ==> charged == Ok::<Expansion, Fault>(state)
            &&& allocates(local) ==> (charged is Ok <==> fits)
            &&& allocates(local) && state.objects >= limits.max_expanded_plist_objects ==> charged
                == Err::<Expansion, Fault>(Fault::Limit("expanded property list object count"@))
            &&& (allocates(local) ==> (charged matches Ok(after) ==> {
                &&& after.objects == state.objects + 1
                &&& after.memory == state.memory + 64
                &&& after.depth == state.depth
                &&& after.root == state.root
            }))
        }),
{
    let names = seq![
        "array"@,
        "data"@,
        "date"@,
        "dict"@,
        "false"@,
        "integer"@,
        "key"@,
        "real"@,
        "string"@,
        "true"@,
    ];
    if allocates(local) {
        assert(names[0] == "array"@ && names[1] == "data"@ && names[2] == "date"@ && names[3]
            == "dict"@ && names[4] == "false"@ && names[5] == "integer"@ && names[6] == "key"@
            && names[7] == "real"@ && names[8] == "string"@ && names[9] == "true"@);
        assert(exists|index: int| 0 <= index < names.len() && names[index] == local);
    }
}

/// A start tag opens a level and costs its element, an empty one costs the same on the
/// level it would have opened, an end tag closes a level, and nothing else counts.
pub proof fn law_tags_open_and_close_levels(
    state: Expansion,
    tag: Seq<char>,
    text: Seq<char>,
    local: Seq<char>,
    limits: Limits,
)
    requires
        state.depth < usize::MAX,
    ensures
        ({
            let opened = element_stepped(state, Token::Start(tag), local, limits);
            let empty = element_stepped(state, Token::Empty(tag), local, limits);
            let closed = element_stepped(state, Token::End, local, limits);
            let deep = state.depth >= limits.max_plist_depth;
            &&& deep ==> opened == Err::<Expansion, Fault>(
                Fault::Limit("property list nesting depth"@),
            ) && empty == opened
            &&& !deep ==> (opened is Ok <==> element_charged(state, local, limits) is Ok) && (empty
                is Ok <==> opened is Ok)
            &&& (opened matches Ok(after) ==> after.depth == state.depth + 1 && after.root && (
            empty matches Ok(other) && other.objects == after.objects && other.memory
                == after.memory))
            &&& (empty matches Ok(after) ==> after.depth == state.depth && after.root)
            &&& closed is Ok <==> state.depth > 0
            &&& (closed matches Ok(after) ==> after.depth == state.depth - 1 && after.objects
                == state.objects && after.memory == state.memory && after.root == state.root)
            &&& element_stepped(state, Token::Text(text), local, limits) == Ok::<Expansion, Fault>(
                state,
            )
            &&& element_stepped(state, Token::Comment, local, limits) == Ok::<Expansion, Fault>(
                state,
            )
        }),
{
}

/// Whether a document leads from state to state, event by event, up to its end.
pub open spec fn walked(bytes: Seq<u8>, limits: Limits, states: Seq<Expansion>) -> bool {
    let bindings = limits.max_xml_events as nat;
    &&& 1 <= states.len() <= limits.max_xml_events
    &&& super::xml::xml_event(bytes, bindings, (states.len() - 1) as nat) == Ok::<Token, Seq<char>>(
        Token::Eof,
    )
    &&& forall|read: nat| read + 1 < states.len() ==> #[trigger] leads(bytes, limits, states, read)
}

/// Whether one event of a document leads from a state to the next.
pub open spec fn leads(
    bytes: Seq<u8>,
    limits: Limits,
    states: Seq<Expansion>,
    read: nat,
) -> bool {
    let bindings = limits.max_xml_events as nat;
    super::xml::xml_event(bytes, bindings, read) matches Ok(token) && {
        &&& !(token is Eof)
        &&& !closes_past_date(date_text(bytes, bindings, read), token)
        &&& element_stepped(
            states[read as int],
            token,
            local_of(bytes, bindings, read + 1, token),
            limits,
        ) == Ok::<Expansion, Fault>(states[read as int + 1])
    }
}

/// A document that leads to its end, every level closed and some element seen, expands to
/// what was counted on the way.
pub proof fn law_counted_documents_are_accepted(
    bytes: Seq<u8>,
    limits: Limits,
    states: Seq<Expansion>,
)
    requires
        walked(bytes, limits, states),
        bytes.len() <= limits.max_plist_bytes,
        looks_like_markup(bytes),
        states[0] == (Expansion { objects: 0, memory: 0, depth: 0, root: false }),
    ensures
        states.last().depth == 0 && states.last().root ==> xml_inspected(bytes, limits) == Ok::<
            Expansion,
            Fault,
        >(states.last()),
        states.last().depth > 0 || !states.last().root ==> xml_inspected(bytes, limits) == Err::<
            Expansion,
            Fault,
        >(Fault::Metadata("unbalanced XML property list"@)),
{
    lemma_walk(bytes, limits, states, 0);
}

proof fn lemma_walk(bytes: Seq<u8>, limits: Limits, states: Seq<Expansion>, read: nat)
    requires
        walked(bytes, limits, states),
        read < states.len(),
    ensures
        states.last().depth == 0 && states.last().root ==> xml_expanded_from(
            bytes,
            limits,
            read,
            states[read as int],
        ) == Ok::<Expansion, Fault>(states.last()),
        states.last().depth > 0 || !states.last().root ==> xml_expanded_from(
            bytes,
            limits,
            read,
            states[read as int],
        ) == Err::<Expansion, Fault>(Fault::Metadata("unbalanced XML property list"@)),
    decreases states.len() - read,
{
    if read + 1 < states.len() {
        assert(leads(bytes, limits, states, read));
        lemma_walk(bytes, limits, states, read + 1);
    }
}

/// Every document that is accepted leads to its end in this way; the answer gives the
/// states it leads through.
pub proof fn law_accepted_documents_were_counted(bytes: Seq<u8>, limits: Limits) -> (states: Seq<
    Expansion,
>)
    requires
        xml_inspected(bytes, limits) is Ok,
    ensures
        walked(bytes, limits, states),
        states[0] == (Expansion { objects: 0, memory: 0, depth: 0, root: false }),
        xml_inspected(bytes, limits) == Ok::<Expansion, Fault>(states.last()),
        bytes.len() <= limits.max_plist_bytes,
        looks_like_markup(bytes),
{
    let start = Expansion { objects: 0, memory: 0, depth: 0, root: false };
    let states = lemma_states(bytes, limits, seq![start]);
    states
}

proof fn lemma_states(bytes: Seq<u8>, limits: Limits, begun: Seq<Expansion>) -> (states: Seq<
    Expansion,
>)
    requires
        begun.len() >= 1,
        xml_expanded_from(bytes, limits, (begun.len() - 1) as nat, begun.last()) is Ok,
        forall|read: nat| read + 1 < begun.len() ==> #[trigger] leads(bytes, limits, begun, read),
    ensures
        walked(bytes, limits, states),
        states[0] == begun[0],
        xml_expanded_from(bytes, limits, (begun.len() - 1) as nat, begun.last()) == Ok::<
            Expansion,
            Fault,
        >(states.last()),
    decreases limits.max_xml_events + 1 - begun.len(),
{
    let bindings = limits.max_xml_events as nat;
    let read = (begun.len() - 1) as nat;
    let token = super::xml::xml_event(bytes, bindings, read)->Ok_0;
    if token is Eof {
        begun
    } else {
        let next = element_stepped(
            begun.last(),
            token,
            local_of(bytes, bindings, read + 1, token),
            limits,
        )->Ok_0;
        let more = begun.push(next);
        assert forall|at: nat| at + 1 < more.len() implies #[trigger] leads(
            bytes,
            limits,
            more,
            at,
        ) by {
            if at + 1 < begun.len() {
                assert(leads(bytes, limits, begun, at));
            }
        }
        assert(more.last() == next);
        let states = lemma_states(bytes, limits, more);
        states
    }
}

/// A number from zero to ninety-nine in two digits.
pub open spec fn pair(value: int) -> Seq<char> {
    seq![(48 + value / 10) as char, (48 + value % 10) as char]
}

/// A date on the last day of the year 9999, with a zone behind UTC, is past the year where
/// its local time and the zone make up a day or more.
pub proof fn law_dates_leave_the_last_year_behind_utc(
    between: char,
    hours: int,
    minutes: int,
    seconds: int,
    zone_hours: int,
    zone_minutes: int,
)
    requires
        (between as u32) < 0x80,
        0 <= hours <= 23,
        0 <= minutes <= 59,
        0 <= seconds <= 59,
        0 <= zone_hours <= 23,
        0 <= zone_minutes <= 59,
    ensures
        ({
            let day = seq!['9', '9', '9', '9', '-', '1', '2', '-', '3', '1'];
            let text = day.push(between) + pair(hours) + seq![':'] + pair(minutes) + seq![':']
                + pair(seconds);
            let zone = pair(zone_hours) + seq![':'] + pair(zone_minutes);
            &&& past_last_year(text + seq!['-'] + zone) <==> 60 * (hours + zone_hours) + minutes
                + zone_minutes >= 24 * 60
            &&& !past_last_year(text + seq!['+'] + zone)
            &&& !past_last_year(text.push('Z'))
        }),
{
    reveal_strlit("9999-12-31");
    let day = seq!['9', '9', '9', '9', '-', '1', '2', '-', '3', '1'];
    assert(LAST_DAY@ =~= day);
    let text = day.push(between) + pair(hours) + seq![':'] + pair(minutes) + seq![':'] + pair(
        seconds,
    );
    let zone = pair(zone_hours) + seq![':'] + pair(zone_minutes);
    let behind = text + seq!['-'] + zone;
    let ahead = text + seq!['+'] + zone;
    assert(text.len() == 19 && behind.len() == 25 && ahead.len() == 25);
    assert(LAST_DAY@.is_prefix_of(behind)) by {
        assert(behind.subrange(0, 10) =~= day);
    }
    assert(behind[10] == between && behind[16] == ':' && behind[13] == ':' && behind[22] == ':');
    assert(two_digits(behind, 11) == Some(hours));
    assert(two_digits(behind, 14) == Some(minutes));
    assert(two_digits(behind, 17) == Some(seconds));
    assert(two_digits(behind, 20) == Some(zone_hours));
    assert(two_digits(behind, 23) == Some(zone_minutes));
    assert(behind[19] == '-' && ahead[19] == '+');
}

/// The text of a date is what its element holds: text as it is, references as the
/// characters they stand for. Any tag ends it, and only the start of a date begins one.
pub proof fn law_dates_hold_their_text(
    before: Seq<char>,
    text: Seq<char>,
    name: Seq<char>,
    character: char,
    tag: Seq<char>,
    local: Seq<char>,
    date: Option<Seq<char>>,
)
    ensures
        date_stepped(date, Token::Start(tag), "date"@) == Some(Seq::<char>::empty()),
        local != "date"@ ==> date_stepped(date, Token::Start(tag), local) is None,
        date_stepped(date, Token::Empty(tag), local) is None,
        date_stepped(date, Token::End, local) is None,
        date_stepped(Some(before), Token::Text(text), local) == Some(before + text),
        date_stepped(None, Token::Text(text), local) is None,
        date_stepped(Some(before), Token::Reference(name, Ok(Some(character))), local) == Some(
            before.push(character),
        ),
        date_stepped(Some(before), Token::Comment, local) == Some(before),
        date_stepped(Some(before), Token::Reference("lt"@, Ok(None)), local) == Some(
            before.push('<'),
        ),
        date_stepped(Some(before), Token::Reference("gt"@, Ok(None)), local) == Some(
            before.push('>'),
        ),
        date_stepped(Some(before), Token::Reference("amp"@, Ok(None)), local) == Some(
            before.push('&'),
        ),
        date_stepped(Some(before), Token::Reference("apos"@, Ok(None)), local) == Some(
            before.push('\''),
        ),
        date_stepped(Some(before), Token::Reference("quot"@, Ok(None)), local) == Some(
            before.push('"'),
        ),
{
    reveal_strlit("lt");
    reveal_strlit("gt");
    reveal_strlit("amp");
    reveal_strlit("apos");
    reveal_strlit("quot");
    assert("lt"@[0] == 'l' && "gt"@[0] == 'g' && "amp"@.len() == 3 && "apos"@[0] == 'a'
        && "quot"@[0] == 'q' && "apos"@.len() == 4 && "quot"@.len() == 4);
    assert(before + seq!['<'] =~= before.push('<'));
    assert(before + seq!['>'] =~= before.push('>'));
    assert(before + seq!['&'] =~= before.push('&'));
    assert(before + seq!['\''] =~= before.push('\''));
    assert(before + seq!['"'] =~= before.push('"'));
}

/// A property is read from the list in its bytes, by the reader that its first bytes call
/// for, once that list was found to expand within the limits.
pub proof fn law_properties_are_read_from_checked_lists(
    name: PropertyName,
    bytes: Seq<u8>,
    images: nat,
    limits: Limits,
    dictionary: Map<Seq<char>, PlistModel>,
)
    ensures
        super::plist_binary::announced(bytes) ==> {
            &&& (super::plist_binary::inspected(bytes, limits) matches Err(fault)
                ==> property_parsed(name, bytes, images, limits) == Err::<PropertyModel, Fault>(
                fault,
            ))
            &&& super::plist_binary::inspected(bytes, limits) is Ok && binary_value(bytes) == Ok::<
                PlistModel,
                Seq<char>,
            >(PlistModel::Dictionary(dictionary)) ==> property_parsed(name, bytes, images, limits)
                == property_read(name, dictionary, images, limits)
            &&& super::plist_binary::inspected(bytes, limits) is Ok && binary_value(bytes) is Err
                ==> property_parsed(name, bytes, images, limits) is Err
        },
        !super::plist_binary::announced(bytes) ==> {
            &&& (xml_inspected(bytes, limits) matches Err(fault) ==> property_parsed(
                name,
                bytes,
                images,
                limits,
            ) == Err::<PropertyModel, Fault>(fault))
            &&& xml_inspected(bytes, limits) is Ok && xml_value(bytes) == Ok::<
                PlistModel,
                Seq<char>,
            >(PlistModel::Dictionary(dictionary)) ==> property_parsed(name, bytes, images, limits)
                == property_read(name, dictionary, images, limits)
            &&& xml_inspected(bytes, limits) is Ok && xml_value(bytes) is Err ==> property_parsed(
                name,
                bytes,
                images,
                limits,
            ) is Err
        },
{
}

/// A date is judged where its element ends, and no other event is refused for one.
pub proof fn law_dates_are_judged_at_their_end(date: Seq<char>, token: Token)
    ensures
        closes_past_date(Some(date), Token::End) <==> past_last_year(date),
        !closes_past_date(None, Token::End),
        !(token is End) ==> !closes_past_date(Some(date), token),
{
}

/// What is wrong with a value is named by its key: that it is missing, is of another kind,
/// or has no number or image to stand for.
pub proof fn law_faulty_values_are_named_by_their_key(
    dictionary: Map<Seq<char>, PlistModel>,
    key: Seq<char>,
    images: nat,
)
    ensures
        !dictionary.contains_key(key) ==> {
            &&& number_read(dictionary, key) == Err::<Number, Fault>(
                Fault::Metadata("missing "@ + key),
            )
            &&& image_read(dictionary, key, images) == Err::<ImageReference, Fault>(
                Fault::Metadata(key + " is not a valid image index"@),
            )
            &&& items_read(dictionary, key) == Err::<Seq<PlistModel>, Fault>(
                Fault::Metadata(key + " is not an array"@),
            )
        },
        dictionary.contains_key(key) ==> {
            let value = dictionary[key];
            &&& (value matches PlistModel::Real(bits) ==> !super::model::finite(bits)
                ==> number_read(dictionary, key) == Err::<Number, Fault>(
                Fault::Metadata(key + " is not finite"@),
            ))
            &&& !(value is Real) && !(value is Integer) ==> number_read(dictionary, key) == Err::<
                Number,
                Fault,
            >(Fault::Metadata(key + " is not numeric"@)) && image_read(dictionary, key, images)
                == Err::<ImageReference, Fault>(
                Fault::Metadata(key + " is not a valid image index"@),
            )
            &&& value == PlistModel::Integer(None, None) ==> number_read(dictionary, key) == Err::<
                Number,
                Fault,
            >(Fault::Metadata(key + " is outside its numeric domain"@))
            &&& (value matches PlistModel::Integer(_, Some(index)) ==> images <= index <= usize::MAX
                ==> image_read(dictionary, key, images) == Err::<ImageReference, Fault>(
                Fault::Metadata(key + " references a missing image"@),
            ))
            &&& !(value is Array) ==> items_read(dictionary, key) == Err::<Seq<PlistModel>, Fault>(
                Fault::Metadata(key + " is not an array"@),
            )
            &&& (value matches PlistModel::Array(items) ==> items_read(dictionary, key) == Ok::<
                Seq<PlistModel>,
                Fault,
            >(items))
        },
{
}

/// The first point of a schedule that cannot be read is its fault, whatever follows it.
pub proof fn law_the_first_bad_point_is_named(
    items: Seq<PlistModel>,
    images: nat,
    at: nat,
    fault: Fault,
)
    requires
        at < items.len(),
    ensures
        (forall|index: int|
            0 <= index < at ==> time_point_read(#[trigger] items[index], images) is Ok)
            && time_point_read(items[at as int], images) == Err::<TimePoint, Fault>(fault)
            ==> time_points_read(items, images, 0, Seq::empty()) == Err::<Seq<TimePoint>, Fault>(
            fault,
        ),
        (forall|index: int|
            0 <= index < at ==> solar_point_read(#[trigger] items[index], images) is Ok)
            && solar_point_read(items[at as int], images) == Err::<SolarPoint, Fault>(fault)
            ==> solar_points_read(items, images, 0, Seq::empty()) == Err::<Seq<SolarPoint>, Fault>(
            fault,
        ),
{
    if (forall|index: int|
        0 <= index < at ==> time_point_read(#[trigger] items[index], images) is Ok)
        && time_point_read(items[at as int], images) == Err::<TimePoint, Fault>(fault) {
        lemma_bad_time(items, images, 0, Seq::empty(), at, fault);
    }
    if (forall|index: int|
        0 <= index < at ==> solar_point_read(#[trigger] items[index], images) is Ok)
        && solar_point_read(items[at as int], images) == Err::<SolarPoint, Fault>(fault) {
        lemma_bad_position(items, images, 0, Seq::empty(), at, fault);
    }
}

proof fn lemma_bad_time(
    items: Seq<PlistModel>,
    images: nat,
    index: nat,
    found: Seq<TimePoint>,
    at: nat,
    fault: Fault,
)
    requires
        index <= at < items.len(),
        forall|index: int|
            0 <= index < at ==> time_point_read(#[trigger] items[index], images) is Ok,
        time_point_read(items[at as int], images) == Err::<TimePoint, Fault>(fault),
    ensures
        time_points_read(items, images, index, found) == Err::<Seq<TimePoint>, Fault>(fault),
    decreases at - index,
{
    if index < at {
        let point = time_point_read(items[index as int], images)->Ok_0;
        lemma_bad_time(items, images, index + 1, found.push(point), at, fault);
    }
}

proof fn lemma_bad_position(
    items: Seq<PlistModel>,
    images: nat,
    index: nat,
    found: Seq<SolarPoint>,
    at: nat,
    fault: Fault,
)
    requires
        index <= at < items.len(),
        forall|index: int|
            0 <= index < at ==> solar_point_read(#[trigger] items[index], images) is Ok,
        solar_point_read(items[at as int], images) == Err::<SolarPoint, Fault>(fault),
    ensures
        solar_points_read(items, images, index, found) == Err::<Seq<SolarPoint>, Fault>(fault),
    decreases at - index,
{
    if index < at {
        let point = solar_point_read(items[index as int], images)->Ok_0;
        lemma_bad_position(items, images, index + 1, found.push(point), at, fault);
    }
}

} // verus!
