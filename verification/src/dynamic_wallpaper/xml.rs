//! XML events, read with `quick_xml`.
//!
//! Reading is a function of the document, of the ceiling on namespace bindings,
//! and of how many events were read before, so each event has a name that its
//! readers can speak of.

use vstd::prelude::*;

use quick_xml::events::attributes::{AttrError, Attribute, Attributes};
use quick_xml::events::{BytesStart, Event};
use quick_xml::name::ResolveResult;
use quick_xml::{NsReader, XmlVersion};

verus! {

/// A namespace-aware reader over a byte slice.
#[verifier::external_type_specification]
#[verifier::external_body]
#[verifier::reject_recursive_types(R)]
pub struct ExNsReader<R>(NsReader<R>);

/// The tag of a start or empty element.
#[verifier::external_type_specification]
#[verifier::external_body]
pub struct ExBytesStart<'i>(BytesStart<'i>);

/// The attributes of a tag that are still to be read.
#[verifier::external_type_specification]
#[verifier::external_body]
pub struct ExAttributes<'a>(Attributes<'a>);

/// One attribute as it stands in its tag.
#[verifier::external_type_specification]
#[verifier::external_body]
pub struct ExAttribute<'a>(Attribute<'a>);

/// Why an attribute is malformed.
#[verifier::external_type_specification]
#[verifier::external_body]
pub struct ExAttrError(AttrError);

/// One event. A tag is given by its text, from its name to its last attribute.
pub enum Token {
    Start(Seq<char>),
    Empty(Seq<char>),
    End,
    Text(Seq<char>),
    Data(Seq<char>),
    /// A general reference by its name, and its character, or `None` for an entity.
    Reference(Seq<char>, Result<Option<char>, Seq<char>>),
    Comment,
    Instruction,
    Declaration,
    DocType,
    Eof,
}

/// A resolved name: the namespace it is bound to, if any, and its local part.
pub struct NameModel {
    pub namespace: Option<Seq<char>>,
    pub local: Seq<char>,
}

/// An attribute: its resolved name and its normalized value, or why the value
/// cannot be normalized.
pub struct AttributeModel {
    pub name: NameModel,
    pub value: Result<Seq<char>, Seq<char>>,
}

/// The event number `index` of a document, or why it cannot be read.
pub uninterp spec fn xml_event(bytes: Seq<u8>, bindings: nat, index: nat) -> Result<
    Token,
    Seq<char>,
>;

/// The text of a tag.
pub uninterp spec fn tag_text(tag: BytesStart<'_>) -> Seq<char>;

/// The name of a tag, with the namespaces in scope after `read` events of a
/// document.
pub uninterp spec fn xml_tag(bytes: Seq<u8>, bindings: nat, read: nat, tag: Seq<char>) -> NameModel;

/// The attribute number `position` of a tag, with the namespaces in scope after
/// `read` events of a document: `None` past the last, `Err` where it is
/// malformed.
pub uninterp spec fn xml_attribute(
    bytes: Seq<u8>,
    bindings: nat,
    read: nat,
    tag: Seq<char>,
    position: nat,
) -> Option<Result<AttributeModel, Seq<char>>>;

/// A resolved name.
#[derive(Debug)]
pub struct XmlName {
    pub namespace: Option<String>,
    pub local: String,
}

impl View for XmlName {
    type V = NameModel;

    open spec fn view(&self) -> NameModel {
        NameModel {
            namespace: match self.namespace {
                Some(namespace) => Some(namespace@),
                None => None,
            },
            local: self.local@,
        }
    }
}

/// An attribute with its normalized value.
#[derive(Debug)]
pub struct XmlAttribute {
    pub name: XmlName,
    pub value: Result<String, String>,
}

impl View for XmlAttribute {
    type V = AttributeModel;

    open spec fn view(&self) -> AttributeModel {
        AttributeModel {
            name: self.name@,
            value: match self.value {
                Ok(value) => Ok(value@),
                Err(text) => Err(text@),
            },
        }
    }
}

/// One event. A tag is kept as it was read, so that its name and attributes can
/// be asked for while its namespaces are in scope.
pub enum XmlEvent<'i> {
    Start(BytesStart<'i>),
    Empty(BytesStart<'i>),
    End,
    Text(String),
    Data(String),
    Reference(String, Result<Option<char>, String>),
    Comment,
    Instruction,
    Declaration,
    DocType,
    Eof,
}

impl<'i> View for XmlEvent<'i> {
    type V = Token;

    open spec fn view(&self) -> Token {
        match self {
            XmlEvent::Start(tag) => Token::Start(tag_text(*tag)),
            XmlEvent::Empty(tag) => Token::Empty(tag_text(*tag)),
            XmlEvent::End => Token::End,
            XmlEvent::Text(text) => Token::Text(text@),
            XmlEvent::Data(text) => Token::Data(text@),
            XmlEvent::Reference(name, reference) => Token::Reference(
                name@,
                match reference {
                    Ok(character) => Ok(*character),
                    Err(text) => Err(text@),
                },
            ),
            XmlEvent::Comment => Token::Comment,
            XmlEvent::Instruction => Token::Instruction,
            XmlEvent::Declaration => Token::Declaration,
            XmlEvent::DocType => Token::DocType,
            XmlEvent::Eof => Token::Eof,
        }
    }
}

/// The document that a reader reads.
pub uninterp spec fn document(reader: NsReader<&[u8]>) -> Seq<u8>;

/// The ceiling on namespace bindings that a reader was made with.
pub uninterp spec fn bindings(reader: NsReader<&[u8]>) -> nat;

/// How many events a reader has read.
pub uninterp spec fn events_read(reader: NsReader<&[u8]>) -> nat;

/// Opens a document with `quick_xml::NsReader::from_reader`, keeping whitespace
/// and limiting namespace bindings. Nothing has been read yet.
#[verifier::external_body]
pub(crate) fn open_document<'i>(bytes: &'i [u8], max_bindings: usize) -> (reader: NsReader<
    &'i [u8],
>)
    ensures
        document(reader) == bytes@,
        bindings(reader) == max_bindings,
        events_read(reader) == 0,
{
    let mut reader = NsReader::from_reader(bytes);
    reader.config_mut().trim_text(false);
    reader.resolver_mut().set_max_namespace_bindings(max_bindings);
    reader
}

/// Reads the next event with `quick_xml::NsReader::read_event`. The event
/// depends on the document, the ceiling on bindings, and the events read before. Line
/// ends are those of XML 1.0.
#[verifier::external_body]
pub(crate) fn next_event<'i>(reader: &mut NsReader<&'i [u8]>) -> (event: Result<
    XmlEvent<'i>,
    String,
>)
    ensures
        document(*final(reader)) == document(*old(reader)),
        bindings(*final(reader)) == bindings(*old(reader)),
        events_read(*final(reader)) == events_read(*old(reader)) + 1,
        (match event {
            Ok(event) => Ok(event@),
            Err(text) => Err(text@),
        }) == xml_event(document(*old(reader)), bindings(*old(reader)), events_read(*old(reader))),
{
    Ok(match reader.read_event().map_err(|error| error.to_string())? {
        Event::Start(tag) => XmlEvent::Start(tag),
        Event::Empty(tag) => XmlEvent::Empty(tag),
        Event::End(_) => XmlEvent::End,
        Event::Text(text) => XmlEvent::Text(text.xml10_content().into()),
        Event::CData(text) => XmlEvent::Data(text.xml10_content().into()),
        Event::GeneralRef(name) => XmlEvent::Reference((*name).to_owned(), name.resolve_char_ref()
            .map_err(|error| error.to_string())),
        Event::Comment(_) => XmlEvent::Comment,
        Event::PI(_) => XmlEvent::Instruction,
        Event::Decl(_) => XmlEvent::Declaration,
        Event::DocType(_) => XmlEvent::DocType,
        Event::Eof => XmlEvent::Eof,
    })
}

/// The name of a tag, resolved with
/// `quick_xml::name::NamespaceResolver::resolve_element`. It depends on the tag's
/// text and on the namespaces in scope.
#[verifier::external_body]
pub(crate) fn tag_name(reader: &NsReader<&[u8]>, tag: &BytesStart<'_>) -> (name: XmlName)
    ensures
        name@ == xml_tag(
            document(*reader),
            bindings(*reader),
            events_read(*reader),
            tag_text(*tag),
        ),
{
    let (namespace, local) = reader.resolver().resolve_element(tag.name());
    XmlName {
        namespace: match namespace {
            ResolveResult::Bound(namespace) => Some(namespace.as_ref().to_owned()),
            ResolveResult::Unbound | ResolveResult::Unknown(_) => None,
        },
        local: local.as_ref().to_owned(),
    }
}

/// The text of the tag whose attributes are being read.
pub uninterp spec fn attributes_tag(attributes: Attributes<'_>) -> Seq<char>;

/// How many attributes have been read.
pub uninterp spec fn attributes_read(attributes: Attributes<'_>) -> nat;

/// The attributes of a tag, from `quick_xml::events::BytesStart::attributes` with
/// duplicate checks. None has been read yet.
#[verifier::external_body]
fn tag_attributes<'a>(tag: &'a BytesStart<'_>) -> (attributes: Attributes<'a>)
    ensures
        attributes_tag(attributes) == tag_text(*tag),
        attributes_read(attributes) == 0,
{
    let mut attributes = tag.attributes();
    attributes.with_checks(true);
    attributes
}

/// Reads the next attribute with `quick_xml::events::attributes::Attributes::next`,
/// its name resolved with
/// `quick_xml::name::NamespaceResolver::resolve_attribute`. It depends on the
/// tag's text, the attributes read before, and the namespaces in scope.
#[verifier::external_body]
fn next_attribute(reader: &NsReader<&[u8]>, attributes: &mut Attributes<'_>) -> (attribute: Option<
    Result<XmlAttribute, String>,
>)
    ensures
        attributes_tag(*final(attributes)) == attributes_tag(*old(attributes)),
        attributes_read(*final(attributes)) == attributes_read(*old(attributes)) + 1,
        attribute_model(attribute) == xml_attribute(
            document(*reader),
            bindings(*reader),
            events_read(*reader),
            attributes_tag(*old(attributes)),
            attributes_read(*old(attributes)),
        ),
{
    Some(attributes.next()?.map_err(|error| error.to_string()).map(|attribute| {
        let (namespace, local) = reader.resolver().resolve_attribute(attribute.key);
        let namespace = match namespace {
            ResolveResult::Bound(namespace) => Some(namespace.as_ref().to_owned()),
            ResolveResult::Unbound | ResolveResult::Unknown(_) => None,
        };
        let name = XmlName { namespace, local: local.as_ref().to_owned() };
        let value = attribute.normalized_value(XmlVersion::Implicit1_0);
        XmlAttribute { name, value: value.map(Into::into).map_err(|error| error.to_string()) }
    }))
}

/// A read attribute by its contents.
pub open spec fn attribute_model(attribute: Option<Result<XmlAttribute, String>>) -> Option<
    Result<AttributeModel, Seq<char>>,
> {
    match attribute {
        None => None,
        Some(Ok(attribute)) => Some(Ok(attribute@)),
        Some(Err(text)) => Some(Err(text@)),
    }
}

/// A tag with its name and attributes. Reading stops at the first attribute that
/// is malformed.
#[derive(Debug)]
pub struct XmlTag {
    pub name: XmlName,
    pub attributes: Vec<XmlAttribute>,
    pub malformed: Option<String>,
}

/// The attributes from `position` on, after `found`, and the fault that ends
/// them. A tag has no more attributes than its document has bytes.
pub open spec fn attributes_from(
    bytes: Seq<u8>,
    bindings: nat,
    read: nat,
    tag: Seq<char>,
    position: nat,
    found: Seq<AttributeModel>,
) -> (Seq<AttributeModel>, Option<Seq<char>>)
    decreases bytes.len() - position,
{
    if position >= bytes.len() {
        (found, None)
    } else {
        match xml_attribute(bytes, bindings, read, tag, position) {
            None => (found, None),
            Some(Err(text)) => (found, Some(text)),
            Some(Ok(attribute)) => attributes_from(
                bytes,
                bindings,
                read,
                tag,
                position + 1,
                found.push(attribute),
            ),
        }
    }
}

/// The contents of attributes.
pub open spec fn attribute_models(attributes: Seq<XmlAttribute>) -> Seq<AttributeModel> {
    attributes.map_values(|attribute: XmlAttribute| attribute@)
}

/// An optional text by its characters.
pub open spec fn text_model(text: Option<String>) -> Option<Seq<char>> {
    match text {
        None => None,
        Some(text) => Some(text@),
    }
}

/// Reads the name and attributes of a tag. `length` is the document's length.
pub(crate) fn read_tag(reader: &NsReader<&[u8]>, tag: &BytesStart<'_>, length: usize) -> (read:
    XmlTag)
    requires
        length == document(*reader).len(),
    ensures
        read.name@ == xml_tag(
            document(*reader),
            bindings(*reader),
            events_read(*reader),
            tag_text(*tag),
        ),
        (attribute_models(read.attributes@), text_model(read.malformed)) == attributes_from(
            document(*reader),
            bindings(*reader),
            events_read(*reader),
            tag_text(*tag),
            0,
            Seq::empty(),
        ),
{
    let name = tag_name(reader, tag);
    let mut attributes = tag_attributes(tag);
    let mut found: Vec<XmlAttribute> = Vec::new();
    assert(attribute_models(found@) =~= Seq::<AttributeModel>::empty());
    let ghost whole = attributes_from(
        document(*reader),
        bindings(*reader),
        events_read(*reader),
        tag_text(*tag),
        0,
        Seq::empty(),
    );
    let mut position: usize = 0;
    while position < length
        invariant
            position <= length,
            length == document(*reader).len(),
            name@ == xml_tag(
                document(*reader),
                bindings(*reader),
                events_read(*reader),
                tag_text(*tag),
            ),
            attributes_tag(attributes) == tag_text(*tag),
            attributes_read(attributes) == position,
            whole == attributes_from(
                document(*reader),
                bindings(*reader),
                events_read(*reader),
                tag_text(*tag),
                0,
                Seq::empty(),
            ),
            whole == attributes_from(
                document(*reader),
                bindings(*reader),
                events_read(*reader),
                tag_text(*tag),
                position as nat,
                attribute_models(found@),
            ),
        decreases length - position,
    {
        match next_attribute(reader, &mut attributes) {
            None => {
                return XmlTag { name, attributes: found, malformed: None };
            },
            Some(Err(text)) => {
                return XmlTag { name, attributes: found, malformed: Some(text) };
            },
            Some(Ok(attribute)) => {
                let ghost before = attribute_models(found@);
                let ghost model = attribute@;
                found.push(attribute);
                assert(attribute_models(found@) =~= before.push(model));
            },
        }
        position += 1;
    }
    XmlTag { name, attributes: found, malformed: None }
}

/// The attributes of a tag are its attributes one by one, up to the first that is
/// malformed, whose fault is kept, or to the last.
pub proof fn law_attributes_are_read_one_by_one(
    bytes: Seq<u8>,
    bindings: nat,
    read: nat,
    tag: Seq<char>,
    position: int,
)
    ensures
        ({
            let (found, fault) = attributes_from(bytes, bindings, read, tag, 0, Seq::empty());
            &&& found.len() <= bytes.len()
            &&& 0 <= position < found.len() ==> xml_attribute(
                bytes,
                bindings,
                read,
                tag,
                position as nat,
            ) == Some(Ok::<AttributeModel, Seq<char>>(found[position]))
            &&& (fault matches Some(text) ==> xml_attribute(
                bytes,
                bindings,
                read,
                tag,
                found.len(),
            ) == Some(Err::<AttributeModel, Seq<char>>(text)))
            &&& fault is None && found.len() < bytes.len() ==> xml_attribute(
                bytes,
                bindings,
                read,
                tag,
                found.len(),
            ) is None
        }),
{
    lemma_attributes(bytes, bindings, read, tag, 0, Seq::empty());
}

proof fn lemma_attributes(
    bytes: Seq<u8>,
    bindings: nat,
    read: nat,
    tag: Seq<char>,
    position: nat,
    found: Seq<AttributeModel>,
)
    requires
        found.len() == position,
        position <= bytes.len(),
        forall|index: int|
            0 <= index < found.len() ==> xml_attribute(bytes, bindings, read, tag, index as nat)
                == Some(Ok::<AttributeModel, Seq<char>>(#[trigger] found[index])),
    ensures
        ({
            let (all, fault) = attributes_from(bytes, bindings, read, tag, position, found);
            &&& all.len() <= bytes.len()
            &&& forall|index: int|
                0 <= index < all.len() ==> xml_attribute(bytes, bindings, read, tag, index as nat)
                    == Some(Ok::<AttributeModel, Seq<char>>(#[trigger] all[index]))
            &&& (fault matches Some(text) ==> xml_attribute(bytes, bindings, read, tag, all.len())
                == Some(Err::<AttributeModel, Seq<char>>(text)))
            &&& fault is None && all.len() < bytes.len() ==> xml_attribute(
                bytes,
                bindings,
                read,
                tag,
                all.len(),
            ) is None
        }),
    decreases bytes.len() - position,
{
    if position < bytes.len() {
        if let Some(Ok(attribute)) = xml_attribute(bytes, bindings, read, tag, position) {
            lemma_attributes(bytes, bindings, read, tag, position + 1, found.push(attribute));
        }
    }
}

} // verus!
