use base64::Engine as _;
use genkan::dynamic_wallpaper::document::{
    admit_source, count_blocks, decoder_limits, insert_metadata_property, list_images,
    validate_dimensions, validate_nclx, validate_nclx_encoding, CheckedSource, DecodedImage,
    Document, ImageHandle, MetadataReader, Nclx, Plane,
};
use genkan::dynamic_wallpaper::heic::{Error, Limits};
use genkan::dynamic_wallpaper::icc::{
    charge_icc_text, judge_profile, lossy_text_bound, preflight_icc_profile, utf16_text_bound,
    IccTransform, TextCharge,
};
use genkan::dynamic_wallpaper::model::{
    Appearance, AppleProperty, HeifItemId, ImageReference, Metadata, ModelError, PropertyValue,
    TopLevelImages,
};
use genkan::dynamic_wallpaper::pixels::{
    composite_over_black, convert_to_srgb, convert_to_srgb_given, pack_rgba, pack_rgba_given,
    take_chunk, unpremultiply,
};
use genkan::dynamic_wallpaper::plist_binary::{preflight_binary_plist, read_be};
use genkan::dynamic_wallpaper::property_list::{
    is_past_last_year, parse_property, preflight_xml_plist,
};
use genkan::dynamic_wallpaper::xmp::{
    append_metadata_text, append_metadata_text_given, decode_plist_base64,
    decode_plist_base64_given, judge_value, parse_xmp, parse_xmp_given, push_property,
    push_property_given, reserve_metadata_string, Memory, PropertyName, XmpParser,
};
use genkan::stable_file::{judge_binding, Binding, OpenError};
use plist::{Dictionary, Value};

fn binary_plist(value: &Value) -> Vec<u8> {
    let mut bytes = Vec::new();
    value.to_writer_binary(&mut bytes).unwrap();
    bytes
}

#[test]
fn plist_preflight_counts_nesting_that_markup_hides() {
    let limits = Limits::default();
    let depth = limits.max_plist_depth * 40;
    // Both quote styles must be read the same way: a `>` inside a quoted
    // attribute does not end the tag.
    for opener in ["<p:array a='/>'>", "<p:array a=\"/>\" >"] {
        let mut qualified = String::from(
            "<?xml version=\"1.0\"?>\n<plist version=\"1.0\"><dict><key>h24</key>",
        );
        for _ in 0..depth {
            qualified.push_str(opener);
        }
        for _ in 0..depth {
            qualified.push_str("</p:array>");
        }
        qualified.push_str("</dict></plist>");
        assert!(
            matches!(
                preflight_xml_plist(qualified.as_bytes(), &limits),
                Err(Error::Limit("property list nesting depth"))
            ),
            "{opener} was not counted as nesting"
        );
    }

    // A closing tag inside a comment does not erase tracked depth.
    let mut commented =
        String::from("<?xml version=\"1.0\"?>\n<plist version=\"1.0\"><dict><key>h24</key>");
    for _ in 0..depth {
        commented.push_str("<array><!-- > </array> -->");
    }
    commented.push_str("</dict></plist>");
    assert!(preflight_xml_plist(commented.as_bytes(), &limits).is_err());

    // The depth a crafted document reaches must also stay inside the event
    // budget, so it cannot trade one ceiling for the other.
    let mut dense = String::from("<plist><dict>");
    for _ in 0..limits.max_xml_events {
        dense.push_str("<string>x</string>");
    }
    dense.push_str("</dict></plist>");
    assert!(matches!(
        preflight_xml_plist(dense.as_bytes(), &limits),
        Err(Error::Limit("property list event count"))
    ));
}

#[test]
fn plist_preflight_counts_every_allocating_element() {
    let limits = Limits::default();
    // A processing instruction and a CDATA section must not hide the
    // elements around them, and an empty element allocates like any other.
    let document = "<plist><?pi a='>'>?><dict><key>k</key><array><true/><false/>\
                    <string><![CDATA[ ]]>x</string></array></dict></plist>";
    assert!(preflight_xml_plist(document.as_bytes(), &limits).is_ok());
    assert!(Value::from_reader_xml(std::io::Cursor::new(document)).is_ok());

    // Keys allocate a string, so they count against the object ceiling.
    // The default ceilings make the event budget the tighter bound for a
    // key-heavy document, so lower the object ceiling to show the charge.
    let tight = Limits {
        max_expanded_plist_objects: 2,
        ..Limits::default()
    };
    let keys = "<plist><dict><key>a</key><key>b</key></dict></plist>";
    assert!(matches!(
        preflight_xml_plist(keys.as_bytes(), &tight),
        Err(Error::Limit("expanded property list object count"))
    ));

    // The same shape under the default ceilings stops at the event budget.
    let mut dense = String::from("<plist><dict>");
    for _ in 0..limits.max_xml_events {
        dense.push_str("<key>k</key>");
    }
    dense.push_str("</dict></plist>");
    assert!(matches!(
        preflight_xml_plist(dense.as_bytes(), &limits),
        Err(Error::Limit("property list event count"))
    ));
}

#[test]
fn plist_accepts_legal_xml_preambles() {
    let limits = Limits::default();
    let body = "<plist version=\"1.0\"><dict><key>h24</key><string>x</string></dict></plist>";
    for property in [
        body.as_bytes().to_vec(),
        format!("  \n\t{body}").into_bytes(),
        format!("<!-- lead -->{body}").into_bytes(),
        format!("<?xml version=\"1.0\"?>\n{body}").into_bytes(),
        [&[0xEF, 0xBB, 0xBF][..], body.as_bytes()].concat(),
    ] {
        assert!(preflight_xml_plist(&property, &limits).is_ok());
        assert!(Value::from_reader_xml(std::io::Cursor::new(&property)).is_ok());
    }
    // Anything that is not markup is still refused.
    assert!(preflight_xml_plist(b"not a property list", &limits).is_err());
    assert!(preflight_xml_plist(&[0, 1, 2, 3], &limits).is_err());
}

#[test]
fn property_parsing_accepts_a_declaration_free_xml_list() {
    // A property list may begin with `<plist>`.
    let images = TopLevelImages::new(vec![HeifItemId::new(1), HeifItemId::new(2)]);
    let xml = b"<plist version=\"1.0\"><dict><key>l</key><integer>0</integer><key>d</key><integer>1</integer></dict></plist>";
    let (name, value) =
        parse_property(PropertyName::Apr, xml, &images, &Limits::default()).unwrap();
    assert_eq!(name, AppleProperty::Appearance);
    assert!(matches!(value, PropertyValue::Appearance(_)));
}

fn boxed(kind: &[u8; 4], body: &[u8]) -> Vec<u8> {
    let mut out = u32::try_from(body.len() + 8).unwrap().to_be_bytes().to_vec();
    out.extend_from_slice(kind);
    out.extend_from_slice(body);
    out
}

fn full_box(kind: &[u8; 4], body: &[u8]) -> Vec<u8> {
    let mut payload = vec![0u8; 4];
    payload.extend_from_slice(body);
    boxed(kind, &payload)
}

#[test]
fn container_preflight_runs_before_libheif() {
    // The aggregate ceiling rejects the file before it is decoded, so the
    // container only needs enough structure to reach the check.
    let mut ipma = 1024u32.to_be_bytes().to_vec();
    for id in 1..=1024u16 {
        ipma.extend_from_slice(&id.to_be_bytes());
        ipma.push(255);
        ipma.extend_from_slice(&[1; 255]);
    }
    let mut infe = vec![2, 0, 0, 0, 0, 1, 0, 0];
    infe.extend_from_slice(b"hvc1item\0");
    let mut iinf = 1u16.to_be_bytes().to_vec();
    iinf.extend_from_slice(&boxed(b"infe", &infe));
    let mut children = full_box(b"iinf", &iinf);
    for _ in 0..4 {
        children.extend_from_slice(&boxed(b"iprp", &full_box(b"ipma", &ipma)));
    }
    assert!(matches!(
        CheckedSource::check(full_box(b"meta", &children), &Limits::default()),
        Err(Error::Limit("property association count"))
    ));
}

#[test]
fn checked_sources_hand_out_the_bytes_that_were_checked() {
    let bytes = full_box(b"meta", &[]);
    let source = CheckedSource::check(bytes.clone(), &Limits::default()).unwrap();
    assert_eq!(source.bytes(), bytes.as_slice());
}

#[test]
fn metadata_buffers_reserve_fallibly() {
    let mut buffer = String::new();
    reserve_metadata_string(&mut buffer, 8).unwrap();
    buffer.push_str("metadata");
    append_metadata_text(&mut buffer, " more").unwrap();
    assert_eq!(buffer, "metadata more");

    // A reservation that cannot be satisfied returns an error instead of
    // aborting the process under memory pressure.
    assert!(matches!(
        reserve_metadata_string(&mut buffer, usize::MAX),
        Err(Error::Limit("metadata text"))
    ));
    let mut properties = Vec::new();
    assert!(push_property(&mut properties, (PropertyName::H24, vec![1, 2, 3])).is_ok());
    assert_eq!(properties.len(), 1);
}

fn h24_value(index: Value, time: Value) -> Value {
    let mut point = Dictionary::new();
    point.insert("i".into(), index);
    point.insert("t".into(), time);
    let mut root = Dictionary::new();
    root.insert("ti".into(), Value::Array(vec![Value::Dictionary(point)]));
    Value::Dictionary(root)
}

fn repeated_reference_plist() -> Vec<u8> {
    let mut bytes = b"bplist00".to_vec();
    bytes.extend_from_slice(&[0x51, b'x']);
    bytes.extend_from_slice(&[0xa4, 0, 0, 0, 0]);
    bytes.extend_from_slice(&[8, 10]);
    bytes.extend_from_slice(&[0; 6]);
    bytes.extend_from_slice(&[1, 1]);
    bytes.extend_from_slice(&2u64.to_be_bytes());
    bytes.extend_from_slice(&1u64.to_be_bytes());
    bytes.extend_from_slice(&15u64.to_be_bytes());
    bytes
}

fn repeated_data_plist(payload_bytes: usize, references: u8) -> Vec<u8> {
    assert!(payload_bytes <= u8::MAX as usize);
    assert!(references <= 14);
    let mut bytes = b"bplist00".to_vec();
    let data_offset = bytes.len();
    bytes.extend_from_slice(&[0x4f, 0x10, payload_bytes as u8]);
    bytes.resize(bytes.len() + payload_bytes, b'x');
    let array_offset = bytes.len();
    bytes.push(0xa0 | references);
    bytes.resize(bytes.len() + usize::from(references), 0);
    let table_offset = bytes.len();
    bytes.extend_from_slice(&[data_offset as u8, array_offset as u8]);
    bytes.extend_from_slice(&[0; 6]);
    bytes.extend_from_slice(&[1, 1]);
    bytes.extend_from_slice(&2u64.to_be_bytes());
    bytes.extend_from_slice(&1u64.to_be_bytes());
    bytes.extend_from_slice(&(table_offset as u64).to_be_bytes());
    bytes
}

#[test]
fn rejects_relative_non_regular_and_oversized_sources() {
    let limits = Limits::default();
    assert!(matches!(
        admit_source(false, Ok(()), Some(1), true, &limits),
        Err(Error::Open("path is not absolute"))
    ));
    let device = judge_binding(Binding {
        bound: true,
        regular: Some(false),
        reopened: false,
    });
    assert!(matches!(
        admit_source(true, device, None, true, &limits),
        Err(Error::Open("path is not a regular file"))
    ));
    let tight = Limits {
        max_source_bytes: 1,
        ..Limits::default()
    };
    assert!(matches!(
        admit_source(true, Ok(()), Some(2), true, &tight),
        Err(Error::SourceTooLarge)
    ));
}

#[test]
fn every_step_of_opening_a_source_can_fail() {
    let limits = Limits::default();
    let open = |bound, regular, reopened| {
        judge_binding(Binding {
            bound,
            regular,
            reopened,
        })
    };
    assert_eq!(open(false, None, false), Err(OpenError::Unavailable));
    assert_eq!(open(true, None, false), Err(OpenError::Metadata));
    assert_eq!(open(true, Some(false), true), Err(OpenError::NotRegular));
    assert_eq!(open(true, Some(true), false), Err(OpenError::Reopen));
    assert_eq!(open(true, Some(true), true), Ok(()));
    assert_eq!(OpenError::Unavailable.message(), "file is unavailable");
    assert_eq!(OpenError::Metadata.message(), "file metadata is unavailable");
    assert_eq!(OpenError::NotRegular.message(), "path is not a regular file");
    assert_eq!(OpenError::Reopen.message(), "stable file could not be reopened");
    assert!(matches!(
        admit_source(true, Ok(()), None, true, &limits),
        Err(Error::Open("file metadata is unavailable"))
    ));
    assert!(matches!(
        admit_source(true, Ok(()), Some(1), false, &limits),
        Err(Error::Open("file could not be rewound"))
    ));
    assert!(matches!(admit_source(true, Ok(()), Some(7), true, &limits), Ok(7)));
}

fn tag_table(color_space: &[u8; 4], tags: &[(&[u8; 4], Vec<u8>)]) -> Vec<u8> {
    let mut profile = vec![0u8; 128];
    profile[8..12].copy_from_slice(&0x0210_0000u32.to_be_bytes());
    profile[12..16].copy_from_slice(b"mntr");
    profile[16..20].copy_from_slice(color_space);
    profile[20..24].copy_from_slice(b"XYZ ");
    profile[36..40].copy_from_slice(b"acsp");
    profile[68..72].copy_from_slice(&0x0000_f6d6u32.to_be_bytes());
    profile[72..76].copy_from_slice(&0x0001_0000u32.to_be_bytes());
    profile[76..80].copy_from_slice(&0x0000_d32du32.to_be_bytes());
    profile.extend_from_slice(&(tags.len() as u32).to_be_bytes());
    let mut offset = 132 + 12 * tags.len();
    let mut payload = Vec::new();
    for (signature, data) in tags {
        profile.extend_from_slice(*signature);
        profile.extend_from_slice(&(offset as u32).to_be_bytes());
        profile.extend_from_slice(&(data.len() as u32).to_be_bytes());
        let mut data = data.clone();
        while data.len() % 4 != 0 {
            data.push(0);
        }
        offset += data.len();
        payload.extend_from_slice(&data);
    }
    profile.extend_from_slice(&payload);
    let total = profile.len() as u32;
    profile[0..4].copy_from_slice(&total.to_be_bytes());
    profile
}

fn description() -> Vec<u8> {
    let mut tag = b"desc\0\0\0\0".to_vec();
    tag.extend_from_slice(&7u32.to_be_bytes());
    tag.extend_from_slice(b"linear\0");
    tag.extend_from_slice(&[0; 78]);
    tag
}

fn copyright() -> Vec<u8> {
    b"text\0\0\0\0none\0".to_vec()
}

fn xyz(values: [u32; 3]) -> Vec<u8> {
    let mut tag = b"XYZ \0\0\0\0".to_vec();
    for value in values {
        tag.extend_from_slice(&value.to_be_bytes());
    }
    tag
}

fn linear_curve() -> Vec<u8> {
    b"curv\0\0\0\0\0\0\0\x01\x01\0".to_vec()
}

/// A display profile with the primaries of sRGB, which sum to the white point, and
/// a linear tone curve.
fn linear_profile() -> Vec<u8> {
    tag_table(
        b"RGB ",
        &[
            (b"bTRC", linear_curve()),
            (b"bXYZ", xyz([0x24a0, 0x0f84, 0xb6c3])),
            (b"cprt", copyright()),
            (b"desc", description()),
            (b"gTRC", linear_curve()),
            (b"gXYZ", xyz([0x6294, 0xb787, 0x18da])),
            (b"rTRC", linear_curve()),
            (b"rXYZ", xyz([0x6fa2, 0x38f5, 0x0390])),
            (b"wtpt", xyz([0xf6d6, 0x0001_0000, 0xd32d])),
        ],
    )
}

fn gray_profile() -> Vec<u8> {
    tag_table(
        b"GRAY",
        &[
            (b"cprt", copyright()),
            (b"desc", description()),
            (b"kTRC", linear_curve()),
            (b"wtpt", xyz([0xf6d6, 0x0001_0000, 0xd32d])),
        ],
    )
}

/// Repoints one of a profile's descriptive tags at an appended `mluc` tag
/// with `records` localization records that all reference the same
/// `payload` bytes, leaving every other tag intact.
fn repoint_at_mluc(
    profile: &mut Vec<u8>,
    signature: &[u8; 4],
    tag_size: usize,
    records: usize,
    payload: usize,
) {
    let tag_count =
        u32::from_be_bytes([profile[128], profile[129], profile[130], profile[131]]) as usize;
    let entry = (0..tag_count)
        .map(|index| 132 + 12 * index)
        .find(|entry| &profile[*entry..*entry + 4] == signature)
        .unwrap();
    let appended_at = profile.len();

    let mut tag = vec![0u8; tag_size];
    tag[0..4].copy_from_slice(b"mluc");
    tag[8..12].copy_from_slice(&(records as u32).to_be_bytes());
    let offset = tag_size - payload;
    // The first record's length and offset sit at fixed positions.
    tag[20..24].copy_from_slice(&(payload as u32).to_be_bytes());
    tag[24..28].copy_from_slice(&(offset as u32).to_be_bytes());
    for record in 1..records {
        let at = 28 + 12 * (record - 1);
        tag[at + 4..at + 8].copy_from_slice(&(payload as u32).to_be_bytes());
        tag[at + 8..at + 12].copy_from_slice(&(offset as u32).to_be_bytes());
    }

    profile.extend_from_slice(&tag);
    let total = profile.len() as u32;
    profile[0..4].copy_from_slice(&total.to_be_bytes());
    profile[entry + 4..entry + 8].copy_from_slice(&(appended_at as u32).to_be_bytes());
    profile[entry + 8..entry + 12].copy_from_slice(&(tag_size as u32).to_be_bytes());
}

/// A profile whose `desc` tag is an `mluc` tag of the given shape.
fn mluc_profile(tag_size: usize, records: usize, payload: usize) -> Vec<u8> {
    let mut profile = linear_profile();
    repoint_at_mluc(&mut profile, b"desc", tag_size, records, payload);
    profile
}

#[test]
fn icc_preflight_rejects_text_that_exceeds_the_byte_ceiling() {
    // Few enough records to stay under the record ceiling, but each one
    // references half the tag, so the sum is what exceeds the budget.
    let profile = mluc_profile(512 * 1024, 16, 256 * 1024);
    assert!(profile.len() <= Limits::default().max_color_profile_bytes);
    assert!(matches!(
        IccTransform::new(profile, &Limits::default()),
        Err(Error::UnsupportedColor("embedded ICC profile text size"))
    ));
}

#[test]
fn icc_preflight_rejects_a_flood_of_zero_length_records() {
    // Zero-length records cost record storage without costing any text. Only
    // the record ceiling can refuse this shape.
    let profile = mluc_profile(64 * 1024, (64 * 1024 - 28) / 12, 0);
    assert!(matches!(
        IccTransform::new(profile, &Limits::default()),
        Err(Error::UnsupportedColor("embedded ICC profile text records"))
    ));
}

#[test]
fn icc_preflight_accepts_a_heavily_localized_profile() {
    // A profile that localizes its description and copyright into dozens of
    // languages is legitimate, so the record ceiling has to sit well above
    // the per-tag count a real file reaches.
    let mut profile = linear_profile();
    repoint_at_mluc(&mut profile, b"desc", 32 * 1024, 200, 16);
    repoint_at_mluc(&mut profile, b"cprt", 32 * 1024, 200, 16);
    assert!(profile.len() <= Limits::default().max_color_profile_bytes);
    assert!(
        preflight_icc_profile(&profile, &Limits::default()).is_ok(),
        "400 localization records across two tags must be accepted"
    );
    // Two tags of 600 records each exceed the ceiling, and the records are
    // what refuses it: every payload is small enough that the text ceiling
    // would not.
    let mut profile = linear_profile();
    repoint_at_mluc(&mut profile, b"desc", 32 * 1024, 600, 16);
    repoint_at_mluc(&mut profile, b"cprt", 32 * 1024, 600, 16);
    assert!(matches!(
        preflight_icc_profile(&profile, &Limits::default()),
        Err(Error::UnsupportedColor("embedded ICC profile text records"))
    ));
}

#[test]
fn icc_preflight_accepts_bounded_text_records() {
    // One record referencing a small payload is the ordinary shape and must
    // keep working, so the ceilings refuse amplification rather than text.
    let profile = mluc_profile(64 * 1024, 1, 32);
    assert!(preflight_icc_profile(&profile, &Limits::default()).is_ok());
}

#[test]
fn icc_preflight_charges_decoded_rather_than_encoded_sizes() {
    // UTF-16 decodes to at most three UTF-8 bytes per two-byte code unit,
    // and lossy UTF-8 conversion turns every invalid byte into a three-byte
    // replacement character. A budget expressed in encoded lengths would
    // undercount both by up to a factor of three.
    let limits = Limits::default();
    let nothing = TextCharge {
        bytes: 0,
        records: 0,
    };
    // Two code units decode to six bytes, not four.
    let mut mluc = vec![0u8; 32];
    mluc[0..4].copy_from_slice(b"mluc");
    mluc[8..12].copy_from_slice(&1u32.to_be_bytes());
    mluc[20..24].copy_from_slice(&4u32.to_be_bytes());
    mluc[24..28].copy_from_slice(&28u32.to_be_bytes());
    mluc.extend_from_slice(&[0u8; 4]);
    let charge = charge_icc_text(&mluc, nothing, &limits).unwrap();
    assert_eq!(charge.bytes, 6);
    assert_eq!(charge.records, 1);

    // A description's ASCII section is charged at its worst-case expansion,
    // and its Unicode section is charged too.
    let mut desc = vec![0u8; 12];
    desc[0..4].copy_from_slice(b"desc");
    desc[8..12].copy_from_slice(&4u32.to_be_bytes());
    desc.extend_from_slice(b"abcd");
    desc.extend_from_slice(&0u32.to_be_bytes()); // Unicode language code
    desc.extend_from_slice(&2u32.to_be_bytes()); // two UTF-16 code units
    desc.extend_from_slice(&[0u8; 4]);
    let charge = charge_icc_text(&desc, nothing, &limits).unwrap();
    assert_eq!(charge.bytes, 12 + 6);
    assert_eq!(charge.records, 1);
}

#[test]
fn icc_preflight_rejects_a_declared_extent_that_does_not_match() {
    let limits = Limits::default();
    let mut too_small = linear_profile();
    too_small[0..4].copy_from_slice(&[0, 0, 0, 0]);
    assert!(matches!(
        preflight_icc_profile(&too_small, &limits),
        Err(Error::UnsupportedColor("embedded ICC profile extent"))
    ));
    let mut too_large = linear_profile();
    too_large[0..4].copy_from_slice(&[0x00, 0x10, 0x00, 0x00]);
    assert!(matches!(
        preflight_icc_profile(&too_large, &limits),
        Err(Error::UnsupportedColor("embedded ICC profile extent"))
    ));
}

#[test]
fn icc_preflight_rejects_a_tag_count_or_extent_above_the_ceiling() {
    let limits = Limits::default();
    let mut profile = linear_profile();
    profile[128..132].copy_from_slice(&(u32::MAX).to_be_bytes());
    assert!(matches!(
        preflight_icc_profile(&profile, &limits),
        Err(Error::UnsupportedColor("embedded ICC profile tag count"))
    ));

    let mut profile = linear_profile();
    profile[128..132].copy_from_slice(&1u32.to_be_bytes());
    // The single tag entry claims an extent past the profile.
    profile[132..136].copy_from_slice(b"desc");
    profile[136..140].copy_from_slice(&8u32.to_be_bytes());
    profile[140..144].copy_from_slice(&u32::MAX.to_be_bytes());
    assert!(matches!(
        preflight_icc_profile(&profile, &limits),
        Err(Error::UnsupportedColor("malformed embedded ICC profile"))
    ));

    let tight = Limits {
        max_color_profile_tags: 1,
        ..Limits::default()
    };
    assert!(matches!(
        preflight_icc_profile(&linear_profile(), &tight),
        Err(Error::UnsupportedColor("embedded ICC profile tag count"))
    ));
}

fn handle(profile: Option<Vec<u8>>, nclx: Option<Nclx>) -> ImageHandle {
    ImageHandle {
        width: 1,
        height: 1,
        luma_bits: 8,
        chroma_bits: 8,
        profile,
        nclx,
    }
}

fn document() -> Document {
    let limits = Limits::default();
    let images = list_images(&[1, 3, 4, 5], &limits).unwrap();
    Document::new(images, 3, 8, 8, limits).unwrap()
}

#[test]
fn an_unconvertible_embedded_profile_fails_closed() {
    assert!(matches!(
        document().check(handle(Some(gray_profile()), None)),
        Err(Error::UnsupportedColor("non-RGB embedded ICC profile"))
    ));
}

#[test]
fn icc_validation_rejects_malformed_empty_and_oversized_profiles() {
    let limits = Limits::default();
    assert!(matches!(
        IccTransform::new(Vec::new(), &limits),
        Err(Error::UnsupportedColor("embedded ICC profile size"))
    ));
    assert!(matches!(
        IccTransform::new(b"not a color profile".to_vec(), &limits),
        Err(Error::UnsupportedColor("malformed embedded ICC profile"))
    ));
    assert!(matches!(
        IccTransform::new(gray_profile(), &limits),
        Err(Error::UnsupportedColor("non-RGB embedded ICC profile"))
    ));
    let tight = Limits {
        max_color_profile_bytes: 8,
        ..Limits::default()
    };
    assert!(matches!(
        IccTransform::new(linear_profile(), &tight),
        Err(Error::UnsupportedColor("embedded ICC profile size"))
    ));
}

#[test]
fn profiles_are_judged_by_how_they_are_read() {
    assert!(matches!(
        judge_profile(None, true),
        Err(Error::UnsupportedColor("malformed embedded ICC profile"))
    ));
    assert!(matches!(
        judge_profile(Some(false), true),
        Err(Error::UnsupportedColor("non-RGB embedded ICC profile"))
    ));
    assert!(matches!(
        judge_profile(Some(true), false),
        Err(Error::UnsupportedColor("unconvertible embedded ICC profile"))
    ));
    assert!(judge_profile(Some(true), true).is_ok());
    // A profile without tone curves is RGB, but there is nothing to convert by.
    let bare = tag_table(b"RGB ", &[(b"cprt", copyright())]);
    assert!(matches!(
        IccTransform::new(bare, &Limits::default()),
        Err(Error::UnsupportedColor(_))
    ));
    // The header is fine, the signature is not.
    let mut unsigned = linear_profile();
    unsigned[36..40].copy_from_slice(b"none");
    assert!(matches!(
        IccTransform::new(unsigned, &Limits::default()),
        Err(Error::UnsupportedColor("malformed embedded ICC profile"))
    ));
}

#[test]
fn text_bounds_are_the_worst_case() {
    assert_eq!(utf16_text_bound(4), 6);
    assert_eq!(utf16_text_bound(3), 4);
    assert_eq!(lossy_text_bound(4), 12);
    assert_eq!(lossy_text_bound(usize::MAX), usize::MAX);
}

#[test]
fn premultiplied_channels_are_recovered_before_a_conversion() {
    let mut pixels = [64, 32, 0, 128, 255, 255, 255, 0];
    unpremultiply(&mut pixels);
    assert_eq!(pixels, [128, 64, 0, 128, 0, 0, 0, 0]);
    composite_over_black(&mut pixels, false);
    assert_eq!(pixels, [64, 32, 0, 255, 0, 0, 0, 255]);
}

#[test]
fn multiplied_channels_come_back_from_a_division() {
    for alpha in 0..=255u8 {
        for channel in 0..=255u8 {
            let multiplied = ((u32::from(channel) * u32::from(alpha) + 127) / 255) as u8;
            let mut pixels = [multiplied, 0, multiplied, alpha];
            unpremultiply(&mut pixels);
            composite_over_black(&mut pixels, false);
            assert_eq!(pixels, [multiplied, 0, multiplied, 255]);
        }
    }
}

#[test]
fn packing_converts_premultiplied_colors_before_compositing() {
    // Drives a partially transparent pixel through the real ICC transform,
    // which is the only way to catch a reordering of the conversion and the
    // compositing step: a nonlinear transform does not commute with
    // premultiplication, so converting first and compositing second gives a
    // different answer than the reverse.
    let transform = IccTransform::new(linear_profile(), &Limits::default()).unwrap();
    let limits = Limits::default();

    // Half-transparent mid gray, already premultiplied by the decoder.
    let premultiplied = [64, 64, 64, 128];
    let packed = pack_rgba(&premultiplied, 4, 1, 1, &limits, true, Some(&transform)).unwrap();

    // Straightening gives 128, the conversion encodes linear 128/255 to
    // 188, and compositing over black at half alpha gives 94.
    assert_eq!(packed.pixels, [94, 94, 94, 255]);

    // A straight pixel at full alpha only exercises the conversion.
    let straight = [128, 128, 128, 255];
    let packed = pack_rgba(&straight, 4, 1, 1, &limits, false, Some(&transform)).unwrap();
    assert_eq!(packed.pixels, [188, 188, 188, 255]);
}

#[test]
fn a_transform_refuses_partial_pixels_and_leaves_the_target_alone() {
    let transform = IccTransform::new(linear_profile(), &Limits::default()).unwrap();
    let mut target = vec![1, 2, 3, 4, 5, 6];
    assert!(!transform.apply(&[128, 128, 128, 255, 128, 128], &mut target));
    assert_eq!(target, [1, 2, 3, 4, 5, 6]);

    let mut target = vec![0; 4];
    assert!(transform.apply(&[128, 128, 128, 255], &mut target));
    assert_eq!(target, [188, 188, 188, 255]);
}

#[test]
fn reserving_nothing_succeeds_and_an_overflowing_length_fails() {
    let mut buffer = String::from("\u{e9}");
    assert!(reserve_metadata_string(&mut buffer, 0).is_ok());
    assert!(matches!(
        reserve_metadata_string(&mut buffer, usize::MAX - 1),
        Err(Error::Limit("metadata text"))
    ));
    assert_eq!(buffer, "\u{e9}");
}

#[test]
fn rejects_malformed_container_and_tight_limits() {
    assert!(matches!(
        CheckedSource::check(b"not an image".to_vec(), &Limits::default()),
        Err(Error::Container(_))
    ));

    let limits = Limits {
        max_top_level_images: 1,
        ..Limits::default()
    };
    assert!(list_images(&[1, 2, 3, 4], &limits).is_err());
}

#[test]
fn xmp_is_namespace_aware_and_supports_elements() {
    let plist = binary_plist(&Value::Dictionary(Dictionary::new()));
    let encoded = base64::engine::general_purpose::STANDARD.encode(&plist);
    let xml = format!(
        r#"<x:xmpmeta xmlns:x="x" xmlns:a="http://ns.apple.com/namespace/1.0/" xmlns:no="no"><a:h24>{encoded}</a:h24><x:item no:solar="{encoded}" a:apr="{encoded}"/></x:xmpmeta>"#
    );
    let properties = parse_xmp(xml.as_bytes(), &Limits::default()).unwrap();
    assert_eq!(
        properties.iter().map(|(name, _)| *name).collect::<Vec<_>>(),
        vec![PropertyName::H24, PropertyName::Apr]
    );

    let escaped = format!("&#10;{encoded}");
    let xml = format!(r#"<a:h24 xmlns:a="http://ns.apple.com/namespace/1.0/">{escaped}</a:h24>"#);
    assert_eq!(
        parse_xmp(xml.as_bytes(), &Limits::default()).unwrap()[0].1,
        plist
    );
}

#[test]
fn xmp_rejects_doctype_nested_markup_and_limits() {
    assert!(parse_xmp(b"<!DOCTYPE x><x/>", &Limits::default()).is_err());
    assert!(parse_xmp(
        br#"<a:h24 xmlns:a="http://ns.apple.com/namespace/1.0/"><x/></a:h24>"#,
        &Limits::default()
    )
    .is_err());
    assert!(parse_xmp(
        br#"<a:h24 xmlns:a="http://ns.apple.com/namespace/1.0/"><!-- split --></a:h24>"#,
        &Limits::default()
    )
    .is_err());
    let limits = Limits {
        max_xml_depth: 1,
        ..Limits::default()
    };
    assert!(parse_xmp(b"<x><y/></x>", &limits).is_err());
}

#[test]
fn xmp_errors_name_what_is_wrong() {
    let limits = Limits::default();
    let said = |xml: &str| match parse_xmp(xml.as_bytes(), &limits) {
        Err(Error::Metadata(text)) => text,
        other => panic!("expected a metadata error, got {other:?}"),
    };
    let inside = |body: &str| {
        format!(r#"<a:h24 xmlns:a="http://ns.apple.com/namespace/1.0/">{body}</a:h24>"#)
    };
    assert_eq!(said("<!DOCTYPE x><x/>"), "XMP DTD is not allowed");
    assert_eq!(said(&inside("<x/>")), "nested markup in Apple property");
    assert_eq!(said(&inside("<x></x>")), "nested markup in Apple property");
    assert_eq!(said(&inside("<!-- split -->")), "markup in Apple property");
    assert_eq!(said(&inside("<?pi?>")), "markup in Apple property");
    assert_eq!(said(&inside("&amp;")), "entity in Apple property");
    assert!(said(&inside("!")).starts_with("invalid Base64 property: "));
    // A document that stops short, and one whose markup is broken.
    assert_eq!(said("<x>"), "unbalanced XMP");
    assert!(parse_xmp(b"<x></y>", &limits).is_err());
    // Namespaces follow the declaration, not the prefix, and CDATA is text.
    let found = parse_xmp(
        br#"<h24 xmlns="http://ns.apple.com/namespace/1.0/"><![CDATA[AQID]]></h24>"#,
        &limits,
    )
    .unwrap();
    assert_eq!(found, [(PropertyName::H24, vec![1, 2, 3])]);
    let foreign = parse_xmp(br#"<a:h24 xmlns:a="else">AQID</a:h24>"#, &limits).unwrap();
    assert!(foreign.is_empty());
    // An empty element of a property holds an empty list.
    let empty =
        parse_xmp(br#"<a:solar xmlns:a="http://ns.apple.com/namespace/1.0/"/>"#, &limits).unwrap();
    assert_eq!(empty, [(PropertyName::Solar, Vec::new())]);
    let tight = Limits {
        max_xml_events: 2,
        ..Limits::default()
    };
    assert!(matches!(
        parse_xmp(b"<x></x>", &tight),
        Err(Error::Limit("XMP event count"))
    ));
}

#[test]
fn a_refused_reservation_is_the_error_of_what_it_was_for() {
    let limits = Limits::default();
    let text: &[u8] = br#"<x a:solar="BAUG" xmlns:a="http://ns.apple.com/namespace/1.0/"><a:h24>AQ&#73;D</a:h24></x>"#;
    // The attribute's value and its entry; then the text, the character and the rest
    // of the text, the element's value and its entry.
    for (granted, what) in [
        "metadata text",
        "property count",
        "metadata text",
        "metadata text",
        "metadata text",
        "metadata text",
        "property count",
    ]
    .into_iter()
    .enumerate()
    {
        match parse_xmp_given(text, &limits, granted) {
            Err(Error::Limit(text)) => assert_eq!(text, what, "{granted}"),
            other => panic!("expected a limit after {granted}, got {other:?}"),
        }
    }
    let found = parse_xmp_given(text, &limits, 7).unwrap();
    assert_eq!(
        found,
        [
            (PropertyName::Solar, vec![4, 5, 6]),
            (PropertyName::H24, vec![1, 2, 3])
        ]
    );
    assert_eq!(found, parse_xmp(text, &limits).unwrap());
    // Nothing is reserved outside a property, and errors met before come first.
    assert_eq!(parse_xmp_given(b"<x y='1'>text<z/></x>", &limits, 0).unwrap(), []);
    assert!(matches!(
        parse_xmp_given(b"<x>", &limits, 0),
        Err(Error::Metadata(text)) if text == "unbalanced XMP"
    ));
    let shallow = Limits {
        max_xml_depth: 0,
        ..Limits::default()
    };
    assert!(matches!(
        parse_xmp_given(text, &shallow, 0),
        Err(Error::Limit("XMP nesting depth"))
    ));
}

#[test]
fn given_reservations_decide_between_the_value_and_the_limit() {
    let limits = Limits::default();
    assert_eq!(decode_plist_base64_given("AQID", &limits, true).unwrap(), [1, 2, 3]);
    assert!(matches!(
        decode_plist_base64_given("AQID", &limits, false),
        Err(Error::Limit("metadata text"))
    ));
    assert_eq!(decode_plist_base64("", &limits).unwrap(), []);

    let mut text = String::from("a");
    assert!(append_metadata_text_given(&mut text, "b", true).is_ok());
    assert!(matches!(
        append_metadata_text_given(&mut text, "c", false),
        Err(Error::Limit("metadata text"))
    ));
    assert!(append_metadata_text(&mut text, "").is_ok());
    assert_eq!(text, "ab");

    let mut properties = Vec::new();
    let property = || (PropertyName::Apr, vec![1]);
    assert!(push_property_given(&mut properties, property(), true).is_ok());
    assert!(matches!(
        push_property_given(&mut properties, property(), false),
        Err(Error::Limit("property count"))
    ));
    assert_eq!(properties, [property()]);
}

#[test]
fn parser_steps_take_room_from_the_memory_they_are_given() {
    let limits = Limits::default();
    let mut memory = Memory::given(1);
    let mut parser = XmpParser::new();
    // Text outside a property needs no room.
    parser.text("ignored", &mut memory).unwrap();
    parser.reference(&Ok(None), &mut memory).unwrap();
    assert!(matches!(
        parser.end(&limits, &mut memory),
        Err(Error::Metadata(text)) if text == "unbalanced XMP"
    ));
    assert!(XmpParser::new().finish().unwrap().is_empty());
}

#[test]
fn frames_need_a_buffer_and_conversions_a_scratch_chunk() {
    let limits = Limits::default();
    let plane = [64, 32, 0, 255, 9, 9];
    let pack = |color: Option<&IccTransform>, buffer, scratch| {
        pack_rgba_given(&plane, 6, 1, 1, &limits, false, color, buffer, scratch)
    };
    assert!(matches!(
        pack(None, None, Some(Vec::new())),
        Err(Error::Limit("decoded image memory"))
    ));
    // What a buffer holds is dropped.
    let frame = pack(None, Some(vec![7, 7]), None).unwrap();
    assert_eq!(frame.pixels, [64, 32, 0, 255]);
    let transform = IccTransform::new(linear_profile(), &Limits::default()).unwrap();
    assert!(matches!(
        pack(Some(&transform), Some(Vec::new()), None),
        Err(Error::Limit("ICC conversion buffer"))
    ));
    let frame = pack(Some(&transform), Some(Vec::new()), Some(vec![1])).unwrap();
    assert_eq!(frame.pixels, pack_rgba(&plane, 6, 1, 1, &limits, false, Some(&transform)).unwrap().pixels);
    // A plane that fails the checks is refused whatever there is.
    assert!(matches!(
        pack_rgba_given(&plane, 2, 1, 1, &limits, false, None, None, None),
        Err(Error::Decode(_))
    ));
    // A plane of no bytes is always packed.
    assert!(pack_rgba(&[], 4, 1, 0, &limits, true, Some(&transform)).unwrap().pixels.is_empty());
    assert!(pack_rgba(&[0; 4], 4, 0, 1, &limits, true, None).unwrap().pixels.is_empty());
}

#[test]
fn conversions_fail_for_partial_pixels_and_missing_memory_alone() {
    let transform = IccTransform::new(linear_profile(), &Limits::default()).unwrap();
    let mut pixels = vec![128, 128, 128, 255, 0];
    assert!(matches!(
        convert_to_srgb(&mut pixels, &transform),
        Err(Error::UnsupportedColor("embedded ICC profile conversion failed"))
    ));
    pixels.pop();
    assert!(matches!(
        convert_to_srgb_given(&mut pixels, &transform, None),
        Err(Error::Limit("ICC conversion buffer"))
    ));
    assert_eq!(pixels, [128, 128, 128, 255]);
    assert!(convert_to_srgb(&mut pixels, &transform).is_ok());
    assert_eq!(pixels, [188, 188, 188, 255]);
    assert!(convert_to_srgb(&mut Vec::new(), &transform).is_ok());

    let mut pixels = vec![1, 2, 3, 4];
    assert!(take_chunk(&mut pixels, 1, &[8, 9], true).is_ok());
    assert_eq!(pixels, [1, 8, 9, 4]);
    assert!(matches!(
        take_chunk(&mut pixels, 0, &[5], false),
        Err(Error::UnsupportedColor("embedded ICC profile conversion failed"))
    ));
    assert_eq!(pixels, [1, 8, 9, 4]);
}

#[test]
fn encoded_properties_are_bounded_and_ignore_spaces() {
    let limits = Limits {
        max_plist_bytes: 3,
        ..Limits::default()
    };
    assert_eq!(decode_plist_base64(" AQ\nID\t", &limits).unwrap(), [1, 2, 3]);
    assert!(matches!(
        decode_plist_base64("AQIDBAUG", &limits),
        Err(Error::Limit("property list size"))
    ));
    let two = Limits {
        max_plist_bytes: 2,
        ..Limits::default()
    };
    // Four characters may hold two bytes, but these hold three.
    assert!(matches!(
        decode_plist_base64("AQID", &two),
        Err(Error::Limit("property list size"))
    ));
    assert!(matches!(
        judge_value(Err("odd".to_owned()), &two),
        Err(Error::Metadata(text)) if text == "invalid Base64 property: odd"
    ));
    assert!(matches!(judge_value(Ok(vec![1, 2]), &two), Ok(bytes) if bytes == [1, 2]));
}

#[test]
fn plist_preflight_rejects_object_depth_and_expansion_limits() {
    let value = Value::Array(vec![Value::Array(vec![Value::String("x".into())])]);
    let bytes = binary_plist(&value);
    let mut limits = Limits {
        max_plist_depth: 2,
        ..Limits::default()
    };
    assert!(matches!(
        preflight_binary_plist(&bytes, &limits),
        Err(Error::Limit("property list nesting depth"))
    ));
    limits.max_plist_depth = 32;
    limits.max_expanded_plist_objects = 2;
    assert!(matches!(
        preflight_binary_plist(&bytes, &limits),
        Err(Error::Limit("expanded property list object count"))
    ));

    limits.max_expanded_plist_objects = 4;
    assert!(matches!(
        preflight_binary_plist(&repeated_reference_plist(), &limits),
        Err(Error::Limit("expanded property list object count"))
    ));

    let limits = Limits {
        max_expanded_plist_bytes: 400,
        ..Limits::default()
    };
    assert!(matches!(
        preflight_binary_plist(&repeated_data_plist(100, 4), &limits),
        Err(Error::Limit("expanded property list memory"))
    ));
}

/// A binary list with one object at offset eight and one-byte offsets.
fn single_object(object: &[u8]) -> Vec<u8> {
    let mut bytes = b"bplist00".to_vec();
    bytes.extend_from_slice(object);
    let table = bytes.len() as u64;
    bytes.push(8);
    bytes.extend_from_slice(&[0; 6]);
    bytes.extend_from_slice(&[1, 1]);
    bytes.extend_from_slice(&1u64.to_be_bytes());
    bytes.extend_from_slice(&0u64.to_be_bytes());
    bytes.extend_from_slice(&table.to_be_bytes());
    bytes
}

#[test]
fn binary_list_errors_name_what_is_wrong() {
    let limits = Limits::default();
    let said = |bytes: &[u8]| match preflight_binary_plist(bytes, &limits) {
        Err(Error::Metadata(text)) => text,
        other => panic!("expected a metadata error, got {other:?}"),
    };
    assert_eq!(said(b"bplist00"), "property is not a binary property list");
    let mut width = single_object(&[0x09]);
    let at = width.len() - 26;
    width[at] = 9;
    assert_eq!(said(&width), "invalid property list integer width");
    let mut root = single_object(&[0x09]);
    let at = root.len() - 9;
    root[at] = 1;
    assert_eq!(said(&root), "invalid root object");
    let mut table = single_object(&[0x09]);
    let at = table.len() - 1;
    table[at] = 7;
    assert_eq!(said(&table), "invalid offset table");
    let mut offset = single_object(&[0x09]);
    offset[9] = 7;
    assert_eq!(said(&offset), "invalid object offset");
    assert_eq!(said(&single_object(&[0x01])), "unsupported property list primitive");
    assert_eq!(said(&single_object(&[0x32])), "invalid date object");
    assert_eq!(said(&single_object(&[0x33, 0])), "truncated property list object");
    assert_eq!(said(&single_object(&[0x4f, 0x20])), "invalid extended object length");
    assert_eq!(said(&single_object(&[0xa1, 1])), "invalid object reference");
    assert_eq!(said(&single_object(&[0x70])), "unsupported property list object");
    let none = Limits {
        max_plist_objects: 0,
        ..Limits::default()
    };
    assert!(matches!(
        preflight_binary_plist(&single_object(&[0x09]), &none),
        Err(Error::Limit("property list object count"))
    ));
    for object in [
        vec![0x00],
        vec![0x08],
        vec![0x13, 0, 0, 0, 0, 0, 0, 0, 1],
        vec![0x33, 0, 0, 0, 0, 0, 0, 0, 0],
        vec![0x51, b'x'],
        vec![0x61, 0, b'x'],
        vec![0x80, 1],
        vec![0xa0],
        vec![0xd0],
    ] {
        assert!(preflight_binary_plist(&single_object(&object), &limits).is_ok());
    }
    // A list that holds itself never ends, so a ceiling ends it.
    assert!(matches!(
        preflight_binary_plist(&single_object(&[0xa1, 0]), &limits),
        Err(Error::Limit("property list nesting depth"))
    ));
}

#[test]
fn integers_are_read_with_the_first_byte_first() {
    assert_eq!(read_be(&[0, 1, 2, 3], 1, 2).unwrap(), 0x0102);
    assert!(matches!(
        read_be(&[0, 1], 1, 2),
        Err(Error::Metadata(text)) if text == "truncated property list integer"
    ));
    assert!(matches!(
        read_be(&[0], usize::MAX, 2),
        Err(Error::Metadata(text)) if text == "integer offset overflow"
    ));
}

#[test]
fn metadata_rejects_fractional_or_missing_indices_and_invalid_domains() {
    let images = TopLevelImages::new(vec![HeifItemId::new(1)]);
    for value in [
        h24_value(Value::Real(0.5), Value::Real(0.0)),
        h24_value(Value::Integer(1u64.into()), Value::Real(0.0)),
        h24_value(Value::Integer(0u64.into()), Value::Real(1.0)),
        h24_value(Value::Integer(0u64.into()), Value::Real(f64::NAN)),
    ] {
        assert!(parse_property(
            PropertyName::H24,
            &binary_plist(&value),
            &images,
            &Limits::default(),
        )
        .is_err());
    }
}

#[test]
fn property_errors_name_what_is_wrong() {
    let images = TopLevelImages::new(vec![HeifItemId::new(1)]);
    let said = |name: PropertyName, value: &Value| match parse_property(
        name,
        &binary_plist(value),
        &images,
        &Limits::default(),
    ) {
        Err(Error::Metadata(text)) => text,
        other => panic!("expected a metadata error, got {other:?}"),
    };
    let zero = || Value::Integer(0u64.into());
    let dictionary = |pairs: Vec<(&str, Value)>| {
        let mut dictionary = Dictionary::new();
        for (key, value) in pairs {
            dictionary.insert(key.into(), value);
        }
        Value::Dictionary(dictionary)
    };
    let schedule = |key: &str, point: Value| dictionary(vec![(key, Value::Array(vec![point]))]);
    assert_eq!(
        said(PropertyName::H24, &Value::Array(Vec::new())),
        "property list root is not a dictionary"
    );
    assert_eq!(said(PropertyName::H24, &dictionary(Vec::new())), "ti is not an array");
    assert_eq!(said(PropertyName::Solar, &dictionary(Vec::new())), "si is not an array");
    assert_eq!(
        said(PropertyName::H24, &dictionary(vec![("ti", Value::Array(Vec::new()))])),
        "invalid h24 point count"
    );
    assert_eq!(
        said(PropertyName::Solar, &dictionary(vec![("si", Value::Array(Vec::new()))])),
        "invalid solar point count"
    );
    assert_eq!(
        said(PropertyName::H24, &schedule("ti", zero())),
        "h24 point is not a dictionary"
    );
    assert_eq!(
        said(PropertyName::Solar, &schedule("si", zero())),
        "solar point is not a dictionary"
    );
    let point = |index: Value, time: Value| {
        schedule("ti", dictionary(vec![("i", index), ("t", time)]))
    };
    assert_eq!(
        said(PropertyName::H24, &point(Value::Real(0.5), Value::Real(0.0))),
        "i is not a valid image index"
    );
    assert_eq!(
        said(PropertyName::H24, &point(Value::Integer(1u64.into()), Value::Real(0.0))),
        "i references a missing image"
    );
    assert_eq!(
        said(PropertyName::H24, &point(zero(), Value::Boolean(true))),
        "t is not numeric"
    );
    assert_eq!(
        said(PropertyName::H24, &point(zero(), Value::Real(f64::INFINITY))),
        "t is not finite"
    );
    assert_eq!(
        said(PropertyName::H24, &schedule("ti", dictionary(vec![("i", zero())]))),
        "missing t"
    );
    let mut with_appearance = Dictionary::new();
    with_appearance.insert("ap".into(), zero());
    with_appearance.insert(
        "ti".into(),
        Value::Array(vec![dictionary(vec![("i", zero()), ("t", zero())])]),
    );
    assert_eq!(
        said(PropertyName::H24, &Value::Dictionary(with_appearance)),
        "ap is not a dictionary"
    );
    assert_eq!(
        said(PropertyName::Apr, &dictionary(vec![("l", zero())])),
        "d is not a valid image index"
    );
}

#[test]
fn metadata_enforces_schedule_and_binary_plist_limits() {
    let images = TopLevelImages::new(vec![HeifItemId::new(1)]);
    let value = h24_value(Value::Integer(0u64.into()), Value::Real(0.0));
    let bytes = binary_plist(&value);
    let limits = Limits {
        max_schedule_points: 0,
        ..Limits::default()
    };
    assert!(matches!(
        parse_property(PropertyName::H24, &bytes, &images, &limits),
        Err(Error::Metadata(_))
    ));
    assert!(matches!(
        parse_property(
            PropertyName::H24,
            b"<?xml version='1.0'?><dict/>",
            &images,
            &limits
        ),
        Err(Error::Metadata(_))
    ));
}

#[test]
fn packing_rejects_bad_stride_truncation_and_output_limit() {
    let output_bytes = Limits {
        max_output_bytes: 4,
        ..Limits::default()
    };
    assert!(pack_rgba(&[0; 8], 3, 1, 1, &output_bytes, false, None).is_err());
    assert!(pack_rgba(&[0; 3], 4, 1, 1, &output_bytes, false, None).is_err());
    let too_small = Limits {
        max_output_bytes: 3,
        ..Limits::default()
    };
    assert!(matches!(
        pack_rgba(&[0; 4], 4, 1, 1, &too_small, false, None),
        Err(Error::Limit("decoded image memory"))
    ));
}

#[test]
fn packing_makes_straight_and_premultiplied_pixels_opaque() {
    let limits = Limits::default();
    assert_eq!(
        pack_rgba(&[64, 32, 0, 128], 4, 1, 1, &limits, true, None)
            .unwrap()
            .pixels,
        [64, 32, 0, 255]
    );
    assert_eq!(
        pack_rgba(&[64, 32, 0, 128], 4, 1, 1, &limits, false, None)
            .unwrap()
            .pixels,
        [32, 16, 0, 255]
    );
    assert_eq!(
        pack_rgba(
            &[255, 100, 1, 0, 7, 8, 9, 255],
            8,
            2,
            1,
            &limits,
            false,
            None
        )
        .unwrap()
        .pixels,
        [0, 0, 0, 255, 7, 8, 9, 255]
    );
}

#[test]
fn packing_skips_the_padding_of_rows() {
    let source = [1, 2, 3, 255, 9, 9, 4, 5, 6, 255, 9, 9];
    let frame = pack_rgba(&source, 6, 1, 2, &Limits::default(), false, None).unwrap();
    assert_eq!((frame.width, frame.height), (1, 2));
    assert_eq!(frame.pixels, [1, 2, 3, 255, 4, 5, 6, 255]);
    assert!(matches!(
        pack_rgba(&source[..11], 6, 1, 2, &Limits::default(), false, None),
        Err(Error::Decode(text)) if text == "decoded plane is truncated"
    ));
    assert!(matches!(
        pack_rgba(&source, 3, 1, 2, &Limits::default(), false, None),
        Err(Error::Decode(text)) if text == "decoded row stride is too short"
    ));
}

#[test]
fn conflicting_metadata_invalidates_only_that_property() {
    let appearance = Appearance {
        light: ImageReference::from_position(0),
        dark: ImageReference::from_position(1),
    };
    let mut metadata = Metadata::default();
    insert_metadata_property(
        &mut metadata,
        AppleProperty::Appearance,
        PropertyValue::Appearance(appearance),
    )
    .unwrap();
    insert_metadata_property(
        &mut metadata,
        AppleProperty::Appearance,
        PropertyValue::Appearance(Appearance {
            light: ImageReference::from_position(1),
            dark: ImageReference::from_position(0),
        }),
    )
    .unwrap();
    insert_metadata_property(
        &mut metadata,
        AppleProperty::Appearance,
        PropertyValue::Appearance(appearance),
    )
    .unwrap();

    assert!(metadata.appearance().is_none());
    assert!(matches!(
        metadata.insert(AppleProperty::Time, PropertyValue::Appearance(appearance)),
        Err(ModelError::MismatchedProperty(AppleProperty::Time))
    ));
    assert!(matches!(
        insert_metadata_property(
            &mut metadata,
            AppleProperty::Time,
            PropertyValue::Appearance(appearance)
        ),
        Err(Error::Metadata(_))
    ));
}

#[test]
fn default_ceilings_leave_room_for_tiles() {
    // A tiled 4K image contributes one `ipma` entry and one `iloc` record
    // per tile, so a real multi-image wallpaper declares hundreds of
    // container items while exposing only a handful of images. The two
    // ceilings must therefore be independent.
    let limits = Limits::default();
    assert!(limits.max_container_items >= 512);
    assert!(u32::try_from(limits.max_top_level_images).unwrap() < limits.max_container_items);
    assert!(u32::try_from(limits.max_metadata_blocks).unwrap() < limits.max_container_items);
}

fn dated(date: &str) -> Vec<u8> {
    format!(
        "<plist><dict><key>l</key><integer>0</integer><key>d</key><integer>1</integer>\
         <key>at</key>{date}</dict></plist>"
    )
    .into_bytes()
}

#[test]
fn dates_that_leave_the_last_year_are_refused() {
    let images = TopLevelImages::new(vec![HeifItemId::new(1), HeifItemId::new(2)]);
    let limits = Limits::default();
    for date in [
        "<date>9999-12-31T23:59:59-23:59</date>",
        "<date>9999-12-31T00:01:00-23:59</date>",
        "<date>9999-12-31 12:00:00.125-12:00</date>",
        "<date>9999-12-31&amp;12:00:00-12:00</date>",
        "<date>&#57;999-12-31T12:00:00-&#x31;2:00</date>",
        "<date>9999-12&unknown;-31T12:00:00-12:00</date>",
        "<date>9999-12<![CDATA[ignored]]>-31T12<!-- ignored -->:00:00<?ignored?>-12:00</date>",
        "<x:date xmlns:x=\"urn:x\">9999-12-31T12:00:00-12:00</x:date>",
        "<true><date>9999-12-31T12:00:00-12:00</date></true>",
    ] {
        assert!(
            matches!(
                parse_property(PropertyName::Apr, &dated(date), &images, &limits),
                Err(Error::Metadata(text)) if text == "property list date is out of range"
            ),
            "{date}"
        );
    }
}

#[test]
fn other_dates_are_left_to_the_reader() {
    let images = TopLevelImages::new(vec![HeifItemId::new(1), HeifItemId::new(2)]);
    let limits = Limits::default();
    // Dates that the reader takes.
    for date in [
        "<date>9999-12-31T23:59:59Z</date>",
        "<date>9999-12-31T23:59:59+23:59</date>",
        "<date>9999-12-31T23:59:59.999999999-00:00</date>",
        "<date>9999-12-31T00:00:59-23:59</date>",
        "<date>9999-12-31T11:59:59-12:00</date>",
        "<date>9999-12-30T23:59:59-23:59</date>",
        "<date>0000-01-01T00:00:00+23:59</date>",
        "<date>2024-02-29T06:30:00-08:00</date>",
    ] {
        let (_, value) =
            parse_property(PropertyName::Apr, &dated(date), &images, &limits).expect(date);
        assert!(matches!(value, PropertyValue::Appearance(_)));
    }
    // Dates that the preflight passes on, and the reader refuses.
    for date in [
        "<date>9999-12-31T23:59:60-23:59</date>",
        "<date>9999-12-31T24:00:00-23:59</date>",
        "<date>9999-12-31T23:59:59.-23:59</date>",
        "<date>9999-12-31T23:59:59-24:00</date>",
        "<date>9999-12-31T23:59:59</date>",
        "<date> 9999-12-31T23:59:59-23:59</date>",
        "<date>9999-12-31\u{e9}23:59:59-23:59</date>",
        "<date>9999-12-31T23:59<b/>:59-23:59</date>",
        "<date/>",
    ] {
        let list = dated(date);
        assert!(preflight_xml_plist(&list, &limits).is_ok(), "{date}");
        assert!(
            matches!(
                parse_property(PropertyName::Apr, &list, &images, &limits),
                Err(Error::Metadata(text)) if text != "property list date is out of range"
            ),
            "{date}"
        );
    }
    assert!(is_past_last_year("9999-12-31T12:00:00-12:00"));
    assert!(!is_past_last_year("9999-12-31T11:59:00-12:00"));
    assert!(!is_past_last_year(""));
}

#[test]
fn accepts_xml_property_lists_like_real_dynamic_wallpapers() {
    // Dynamic wallpapers in the wild carry XML property lists.
    let xml = r#"<?xml version="1.0" encoding="UTF-8"?><!DOCTYPE plist PUBLIC "-//Apple//DTD PLIST 1.0//EN" "http://www.apple.com/DTDs/PropertyList-1.0.dtd"><plist version="1.0"><dict><key>ti</key><array><dict><key>i</key><integer>0</integer><key>t</key><real>0.0</real></dict><dict><key>i</key><integer>1</integer><key>t</key><real>0.5</real></dict></array></dict></plist>"#;
    let images = TopLevelImages::new(vec![HeifItemId::new(1), HeifItemId::new(2)]);
    let (property, value) = parse_property(
        PropertyName::H24,
        xml.as_bytes(),
        &images,
        &Limits::default(),
    )
    .unwrap();
    assert_eq!(property, AppleProperty::Time);
    let PropertyValue::Time(schedule) = value else {
        panic!("expected a time schedule");
    };
    assert_eq!(schedule.points().len(), 2);
    assert_eq!(schedule.points()[1].image, ImageReference::from_position(1));
    assert_eq!(schedule.points()[1].time.bits, 0.5f64.to_bits());

    // The same document with an appearance pair, as the time-of-day
    // wallpapers embed it.
    let xml = r#"<?xml version="1.0" encoding="UTF-8"?><plist version="1.0"><dict><key>ap</key><dict><key>d</key><integer>1</integer><key>l</key><integer>0</integer></dict><key>ti</key><array><dict><key>i</key><integer>0</integer><key>t</key><integer>0</integer></dict><dict><key>i</key><integer>1</integer><key>t</key><real>0.5</real></dict></array></dict></plist>"#;
    let (_, value) = parse_property(
        PropertyName::H24,
        xml.as_bytes(),
        &images,
        &Limits::default(),
    )
    .unwrap();
    let PropertyValue::Time(schedule) = value else {
        panic!("expected a time schedule");
    };
    let appearance = schedule.appearance().expect("embedded appearance");
    assert_eq!(appearance.light, ImageReference::from_position(0));
    assert_eq!(appearance.dark, ImageReference::from_position(1));

    // An XML solar schedule, as the solar dynamic wallpapers encode it.
    let xml = r#"<?xml version="1.0" encoding="UTF-8"?><plist version="1.0"><dict><key>si</key><array><dict><key>i</key><integer>0</integer><key>a</key><real>-8.0</real><key>z</key><real>164.8</real></dict><dict><key>i</key><integer>1</integer><key>a</key><real>2.8</real><key>z</key><real>75.2</real></dict></array></dict></plist>"#;
    let (property, value) = parse_property(
        PropertyName::Solar,
        xml.as_bytes(),
        &images,
        &Limits::default(),
    )
    .unwrap();
    assert_eq!(property, AppleProperty::Solar);
    let PropertyValue::Solar(schedule) = value else {
        panic!("expected a solar schedule");
    };
    assert_eq!(schedule.points().len(), 2);
    assert_eq!(schedule.points()[0].position.altitude_bits, (-8.0f64).to_bits());
    assert_eq!(schedule.points()[0].position.azimuth_bits, 164.8f64.to_bits());
}

#[test]
fn xml_property_lists_are_bounded_before_expansion() {
    let images = TopLevelImages::new(vec![HeifItemId::new(1)]);
    // A document that is not a property list in either encoding.
    assert!(matches!(
        parse_property(
            PropertyName::H24,
            b"not a plist",
            &images,
            &Limits::default()
        ),
        Err(Error::Metadata(_))
    ));
    // An XML document that exceeds the encoded byte ceiling.
    let oversized = format!(
        r#"<?xml version="1.0"?><plist version="1.0"><dict><key>ti</key><string>{}</string></dict></plist>"#,
        "x".repeat(Limits::default().max_plist_bytes)
    );
    assert!(matches!(
        parse_property(
            PropertyName::H24,
            oversized.as_bytes(),
            &images,
            &Limits::default()
        ),
        Err(Error::Limit("property list size"))
    ));
    // Deep nesting is rejected before `plist` expands it.
    let deep = format!(
        "<?xml version=\"1.0\"?><plist version=\"1.0\">{}{}",
        "<array>".repeat(64),
        "</array>".repeat(64)
    );
    assert!(matches!(
        parse_property(
            PropertyName::H24,
            deep.as_bytes(),
            &images,
            &Limits::default()
        ),
        Err(Error::Limit("property list nesting depth"))
    ));
    // Object-count expansion is bounded.
    let limits = Limits {
        max_expanded_plist_objects: 2,
        ..Limits::default()
    };
    let wide = format!(
        "<?xml version=\"1.0\"?><plist version=\"1.0\"><array>{}</array></plist>",
        "<string>x</string>".repeat(16)
    );
    assert!(matches!(
        parse_property(PropertyName::H24, wide.as_bytes(), &images, &limits),
        Err(Error::Limit("expanded property list object count"))
    ));
}

#[test]
fn color_policy_accepts_only_convertible_sdr_nclx_profiles() {
    // The BT.709 primaries with nothing said of the transfer function.
    assert!(validate_nclx(Some(Nclx {
        primaries: 1,
        transfer: 2
    }))
    .is_ok());
    assert!(validate_nclx(None).is_ok());

    // The BT.2020 primaries with the transfer function of sRGB.
    assert!(matches!(
        validate_nclx_encoding(9, 13),
        Err(Error::UnsupportedColor(_))
    ));
    // The BT.709 primaries with their own transfer function.
    assert!(matches!(
        validate_nclx_encoding(1, 1),
        Err(Error::UnsupportedColor(_))
    ));
}

#[test]
fn images_are_found_by_position_and_identifier() {
    let limits = Limits::default();
    assert!(matches!(
        list_images(&[], &limits),
        Err(Error::Container(text)) if text == "no top-level images"
    ));
    let document = document();
    assert_eq!(document.item_ids(), [1, 3, 4, 5]);
    assert_eq!(document.primary_image().position(), 1);
    assert_eq!(document.images().len(), 4);
    assert_eq!(
        document
            .images()
            .resolve(ImageReference::from_position(2))
            .map(HeifItemId::value),
        Some(4)
    );
    assert_eq!(document.item(ImageReference::from_position(3)).unwrap().value(), 5);
    assert!(matches!(
        document.item(ImageReference::from_position(4)),
        Err(Error::MissingImage)
    ));
    assert!(document.metadata().time().is_none());
    let images = list_images(&[1], &limits).unwrap();
    assert!(matches!(
        Document::new(images, 2, 8, 8, limits),
        Err(Error::Container(text)) if text == "primary image is not top-level"
    ));
}

#[test]
fn dimensions_are_bounded() {
    let limits = Limits::default();
    assert!(validate_dimensions(4096, 4096, &limits).is_ok());
    for (width, height) in [(0, 1), (1, 0), (16_385, 1), (1, 16_385), (16_384, 16_384)] {
        assert!(matches!(
            validate_dimensions(width, height, &limits),
            Err(Error::Limit("image dimensions"))
        ));
    }
}

#[test]
fn metadata_blocks_are_counted_sized_and_read() {
    let limits = Limits::default();
    assert!(matches!(count_blocks(-1, &limits), Ok(0)));
    assert!(matches!(
        count_blocks(65, &limits),
        Err(Error::Limit("metadata block count"))
    ));
    assert!(matches!(
        MetadataReader::new(2, 1, &limits),
        Err(Error::Container(text)) if text == "could not enumerate metadata blocks"
    ));
    let images = list_images(&[1, 2], &limits).unwrap();
    let mut reader = MetadataReader::new(2, 2, &limits).unwrap();
    assert!(matches!(
        reader.account(limits.max_metadata_block_bytes + 1, None, None, &limits),
        Err(Error::Limit("metadata block size"))
    ));
    assert!(!reader.account(10, Some("Exif"), None, &limits).unwrap());
    assert!(!reader.account(10, Some("mime"), Some("text/plain"), &limits).unwrap());
    assert!(reader.account(10, Some("mime"), Some("application/rdf+xml"), &limits).unwrap());
    assert_eq!(reader.total, 30);
    let list = "<plist><dict><key>l</key><integer>0</integer><key>d</key><integer>1</integer></dict></plist>";
    let encoded = base64::engine::general_purpose::STANDARD.encode(list);
    let block = format!(
        r#"<a:apr xmlns:a="http://ns.apple.com/namespace/1.0/">{encoded}</a:apr>"#
    );
    // The text, the value and the entry each need room.
    for (reservations, what) in ["metadata text", "metadata text", "property count"]
        .into_iter()
        .enumerate()
    {
        assert!(matches!(
            reader.read_given(block.as_bytes(), &images, &limits, reservations),
            Err(Error::Limit(text)) if text == what
        ));
    }
    reader.read_given(b"<x/>", &images, &limits, 0).unwrap();
    reader.read_given(block.as_bytes(), &images, &limits, 3).unwrap();
    let document = Document::new(images, 1, 8, 8, limits).unwrap().with_metadata(reader);
    let appearance = document.metadata().appearance().unwrap();
    assert_eq!((appearance.light.position(), appearance.dark.position()), (0, 1));

    let small = Limits {
        max_metadata_bytes: 15,
        ..Limits::default()
    };
    let mut reader = MetadataReader::new(0, 0, &small).unwrap();
    reader.account(10, None, None, &small).unwrap();
    assert!(matches!(
        reader.account(10, None, None, &small),
        Err(Error::Limit("total metadata size"))
    ));
}

#[test]
fn decoded_images_must_be_what_was_checked() {
    let document = document();
    let plane = |width, bits_per_pixel| Plane {
        data: &[10, 20, 30, 255],
        stride: 4,
        width,
        height: 1,
        bits_per_pixel,
        storage_bits_per_pixel: 32,
    };
    let decoded = |interleaved, has_profile| DecodedImage {
        has_profile,
        nclx: None,
        premultiplied_alpha: false,
        interleaved,
    };
    let checked = document.check(handle(None, None)).unwrap();
    let frame = document.decode(&checked, decoded(Some(plane(1, 8)), false)).unwrap();
    assert_eq!(frame.pixels, [10, 20, 30, 255]);
    assert!(matches!(
        document.decode_given(&checked, decoded(Some(plane(1, 8)), false), None, None),
        Err(Error::Limit("decoded image memory"))
    ));
    let given =
        document.decode_given(&checked, decoded(Some(plane(1, 8)), false), Some(Vec::new()), None);
    assert_eq!(given.unwrap(), frame);
    assert!(matches!(
        document.decode_given(&checked, decoded(None, false), None, None),
        Err(Error::Decode(_))
    ));
    assert!(matches!(
        document.decode(&checked, decoded(Some(plane(1, 8)), true)),
        Err(Error::UnsupportedColor("decoded ICC profile"))
    ));
    assert!(matches!(
        document.decode(&checked, decoded(None, false)),
        Err(Error::Decode(text)) if text == "decoder returned no interleaved plane"
    ));
    assert!(matches!(
        document.decode(&checked, decoded(Some(plane(2, 8)), false)),
        Err(Error::Decode(text)) if text == "decoded dimensions do not match the item"
    ));
    assert!(matches!(
        document.decode(&checked, decoded(Some(plane(1, 10)), false)),
        Err(Error::Decode(text)) if text == "decoder returned an unexpected RGBA representation"
    ));
    let hdr = ImageHandle {
        luma_bits: 10,
        ..handle(None, None)
    };
    assert!(matches!(
        document.check(hdr),
        Err(Error::UnsupportedColor("HDR bit depth"))
    ));
    // An embedded profile is converted.
    let tagged = document.check(handle(Some(linear_profile()), None)).unwrap();
    let gray = Plane {
        data: &[128, 128, 128, 255],
        ..plane(1, 8)
    };
    let frame = document.decode(&tagged, decoded(Some(gray), true)).unwrap();
    assert_eq!(frame.pixels, [188, 188, 188, 255]);
}

#[test]
fn the_decoder_gets_more_memory_once_metadata_is_read() {
    let limits = Limits::default();
    let parsing = decoder_limits(&limits, false);
    let decoding = decoder_limits(&limits, true);
    assert_eq!(parsing.max_memory_block_size, 1024 * 1024);
    assert_eq!(decoding.max_memory_block_size, 384 * 1024 * 1024);
    assert_eq!(parsing.max_items, 4_096);
    assert_eq!(parsing.max_total_memory, 384 * 1024 * 1024);
}

#[test]
fn errors_are_sentences() {
    assert_eq!(
        Error::Open("path is not absolute").message(),
        "could not open dynamic wallpaper: path is not absolute"
    );
    assert_eq!(
        Error::SourceTooLarge.message(),
        "dynamic wallpaper exceeds the source size limit"
    );
    assert_eq!(
        Error::Container("no metadata box".to_owned()).message(),
        "invalid or unsupported HEIC container: no metadata box"
    );
    assert_eq!(
        Error::Limit("box count").message(),
        "dynamic wallpaper exceeds a resource limit: box count"
    );
    assert_eq!(
        Error::Metadata("missing t".to_owned()).message(),
        "invalid dynamic wallpaper metadata: missing t"
    );
    assert_eq!(
        Error::MissingImage.message(),
        "dynamic wallpaper image reference is not present"
    );
    assert_eq!(
        Error::UnsupportedColor("HDR bit depth").message(),
        "unsupported dynamic wallpaper color profile: HDR bit depth"
    );
    assert_eq!(
        Error::Decode("odd".to_owned()).message(),
        "could not decode dynamic wallpaper image: odd"
    );
}
