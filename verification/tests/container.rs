use genkan::dynamic_wallpaper::container::{
    is_container, is_image_item, is_sequence_brand, is_visual_sample_entry, preflight, Budget,
};
use genkan::dynamic_wallpaper::heic::Error;

/// Wraps `body` in a box header.
fn boxed(kind: &[u8; 4], body: &[u8]) -> Vec<u8> {
    let mut out = Vec::with_capacity(body.len() + 8);
    out.extend_from_slice(&u32::try_from(body.len() + 8).unwrap().to_be_bytes());
    out.extend_from_slice(kind);
    out.extend_from_slice(body);
    out
}

/// Wraps `body` in a full box header.
fn full_box(kind: &[u8; 4], version: u8, flags: u32, body: &[u8]) -> Vec<u8> {
    let mut payload = vec![version];
    payload.extend_from_slice(&flags.to_be_bytes()[1..]);
    payload.extend_from_slice(body);
    boxed(kind, &payload)
}

fn cstring(value: &str) -> Vec<u8> {
    let mut out = value.as_bytes().to_vec();
    out.push(0);
    out
}

/// An `infe` entry declaring `id` with `item_type`.
fn infe(id: u32, item_type: &[u8; 4], content_type: Option<&str>) -> Vec<u8> {
    let mut body = Vec::new();
    body.extend_from_slice(&u16::try_from(id).unwrap().to_be_bytes());
    body.extend_from_slice(&0u16.to_be_bytes());
    body.extend_from_slice(item_type);
    body.extend_from_slice(&cstring("item"));
    if let Some(content_type) = content_type {
        body.extend_from_slice(&cstring(content_type));
        body.extend_from_slice(&cstring(""));
    }
    full_box(b"infe", 2, 0, &body)
}

/// An `infe` entry whose MIME content type runs to the end of its box with
/// no terminating zero, so the parser's last-byte rule applies.
fn infe_mime_without_terminator(id: u32, content_type: &str) -> Vec<u8> {
    let mut body = Vec::new();
    body.extend_from_slice(&u16::try_from(id).unwrap().to_be_bytes());
    body.extend_from_slice(&0u16.to_be_bytes());
    body.extend_from_slice(b"mime");
    body.extend_from_slice(&cstring("item"));
    body.extend_from_slice(content_type.as_bytes());
    full_box(b"infe", 2, 0, &body)
}

/// An `iinf` box declaring `entries` as its children.
fn iinf(entries: &[Vec<u8>]) -> Vec<u8> {
    let mut body = Vec::new();
    body.extend_from_slice(&u16::try_from(entries.len()).unwrap().to_be_bytes());
    for entry in entries {
        body.extend_from_slice(entry);
    }
    full_box(b"iinf", 0, 0, &body)
}

/// An `iloc` box with one four-byte-offset, four-byte-length record each.
fn iloc(records: &[(u32, u32)]) -> Vec<u8> {
    iloc_version(0, records)
}

/// An `iloc` box in the requested version. Versions 1 and 2 add a
/// construction-method field and widen the item identifier.
fn iloc_version(version: u8, records: &[(u32, u32)]) -> Vec<u8> {
    iloc_extents(
        version,
        &records
            .iter()
            .map(|(id, len)| (*id, vec![*len]))
            .collect::<Vec<_>>(),
    )
}

/// An `iloc` box whose records declare the given extents each.
fn iloc_extents(version: u8, records: &[(u32, Vec<u32>)]) -> Vec<u8> {
    let mut body = Vec::new();
    // Offset, length and base offset are four bytes each; the index size in
    // the low nibble is zero, so the records stay the same width.
    body.extend_from_slice(&0x4440u16.to_be_bytes());
    let count = u32::try_from(records.len()).unwrap();
    if version < 2 {
        body.extend_from_slice(&u16::try_from(count).unwrap().to_be_bytes());
    } else {
        body.extend_from_slice(&count.to_be_bytes());
    }
    for (id, extents) in records {
        if version < 2 {
            body.extend_from_slice(&u16::try_from(*id).unwrap().to_be_bytes());
        } else {
            body.extend_from_slice(&id.to_be_bytes());
        }
        if version >= 1 {
            body.extend_from_slice(&0u16.to_be_bytes());
        }
        body.extend_from_slice(&0u16.to_be_bytes());
        body.extend_from_slice(&0u32.to_be_bytes());
        body.extend_from_slice(&u16::try_from(extents.len()).unwrap().to_be_bytes());
        for length in extents {
            body.extend_from_slice(&0u32.to_be_bytes());
            body.extend_from_slice(&length.to_be_bytes());
        }
    }
    full_box(b"iloc", version, 0, &body)
}

/// An `iref` box holding one `cdsc` reference list.
fn iref(references: &[u32]) -> Vec<u8> {
    let mut child = Vec::new();
    child.extend_from_slice(&1u16.to_be_bytes());
    child.extend_from_slice(&u16::try_from(references.len()).unwrap().to_be_bytes());
    for id in references {
        child.extend_from_slice(&u16::try_from(*id).unwrap().to_be_bytes());
    }
    full_box(b"iref", 0, 0, &boxed(b"cdsc", &child))
}

/// An `ipma` box associating `associations` properties with each entry.
fn ipma(entries: &[(u32, usize)]) -> Vec<u8> {
    let mut body = Vec::new();
    body.extend_from_slice(&u32::try_from(entries.len()).unwrap().to_be_bytes());
    for (id, associations) in entries {
        body.extend_from_slice(&u16::try_from(*id).unwrap().to_be_bytes());
        body.push(u8::try_from(*associations).unwrap());
        body.extend(vec![1u8; *associations]);
    }
    full_box(b"ipma", 0, 0, &body)
}

/// A `meta` box holding `children`.
fn meta(children: &[Vec<u8>]) -> Vec<u8> {
    let mut body = Vec::new();
    for child in children {
        body.extend_from_slice(child);
    }
    full_box(b"meta", 0, 0, &body)
}

/// A file type box with `major` and the given compatible brands.
fn ftyp(major: &[u8; 4], compatible: &[&[u8; 4]]) -> Vec<u8> {
    let mut body = major.to_vec();
    body.extend_from_slice(&0u32.to_be_bytes());
    for brand in compatible {
        body.extend_from_slice(*brand);
    }
    boxed(b"ftyp", &body)
}

/// A `uuid` box carrying a sixteen-byte extended type.
fn uuid(extended: &[u8; 16], body: &[u8]) -> Vec<u8> {
    let mut payload = extended.to_vec();
    payload.extend_from_slice(body);
    boxed(b"uuid", &payload)
}

/// A data reference box with the given entries.
fn dref(children: &[Vec<u8>]) -> Vec<u8> {
    let mut body = Vec::new();
    body.extend_from_slice(&u32::try_from(children.len()).unwrap().to_be_bytes());
    for child in children {
        body.extend_from_slice(child);
    }
    full_box(b"dref", 0, 0, &body)
}

/// A track reference box with the given reference lists.
fn tref(children: &[Vec<u8>]) -> Vec<u8> {
    let mut body = Vec::new();
    for child in children {
        body.extend_from_slice(child);
    }
    boxed(b"tref", &body)
}

/// A visual sample entry holding `children` after its fixed prefix.
fn visual_sample_entry(kind: &[u8; 4], children: &[Vec<u8>]) -> Vec<u8> {
    visual_sample_entry_named(kind, 0, children)
}

/// A visual sample entry with the compressor-name length byte set.
fn visual_sample_entry_named(
    kind: &[u8; 4],
    name_length: u8,
    children: &[Vec<u8>],
) -> Vec<u8> {
    let mut body = vec![0u8; 78];
    body[42] = name_length;
    for child in children {
        body.extend_from_slice(child);
    }
    boxed(kind, &body)
}

fn budget() -> Budget {
    Budget {
        max_container_items: 4_096,
        max_container_associations: 32_768,
        max_metadata_items: 64,
        max_metadata_bytes: 4 * 1024 * 1024,
        max_container_boxes: 16_384,
        max_container_depth: 16,
        max_item_extents: 32,
    }
}

#[test]
fn accepts_a_minimal_container() {
    let bytes = meta(&[
        iinf(&[
            infe(1, b"hvc1", None),
            infe(2, b"mime", Some("application/rdf+xml")),
        ]),
        iloc(&[(1, 1024), (2, 64)]),
        iref(&[1]),
        boxed(b"iprp", &ipma(&[(1, 1), (2, 1)])),
    ]);
    assert!(preflight(&bytes, &budget()).is_ok());
}

#[test]
fn rejects_associations_that_are_legal_per_box() {
    // Each box stays under the per-box entry ceiling, but the decoder merges
    // every `ipma` box into the first without an aggregate check.
    let entries: Vec<(u32, usize)> = (0..1024).map(|id| (id + 1, 255)).collect();
    let mut children = vec![iinf(&[infe(1, b"hvc1", None)])];
    for _ in 0..4 {
        children.push(boxed(b"iprp", &ipma(&entries)));
    }
    assert!(matches!(
        preflight(&meta(&children), &budget()),
        Err(Error::Limit("property association count"))
    ));
}

#[test]
fn counts_boxes_wherever_the_native_parser_reaches_them() {
    // The decoder dispatches by four-character code regardless of the parent, so
    // an `ipma` nested in `ipco`, or an `iinf` nested in `iinf`, is parsed
    // and allocated the same way as one in its conventional position.
    let entries: Vec<(u32, usize)> = (0..1024).map(|id| (id + 1, 255)).collect();
    let nested_ipma = meta(&[boxed(b"iprp", &boxed(b"ipco", &ipma(&entries)))]);
    assert!(matches!(
        preflight(&nested_ipma, &budget()),
        Err(Error::Limit("property association count"))
    ));

    let inner: Vec<Vec<u8>> = (0..5000).map(|id| infe(id + 1, b"hvc1", None)).collect();
    let nested_iinf = meta(&[iinf(&[iinf(&inner)])]);
    assert!(matches!(
        preflight(&nested_iinf, &budget()),
        Err(Error::Limit("container item count"))
    ));

    // A `trak` inside `moov` is reachable too.
    let deep = boxed(
        b"moov",
        &boxed(b"trak", &boxed(b"mdia", &boxed(b"minf", &ipma(&entries)))),
    );
    assert!(matches!(
        preflight(&deep, &budget()),
        Err(Error::Limit("property association count"))
    ));
}

#[test]
fn counts_boxes_behind_container_prefixes() {
    // A data reference box, a URI meta sample entry and a visual sample
    // entry each carry a prefix before their children, so walking from the
    // box header would misread the prefix as a box.
    let entries: Vec<(u32, usize)> = (0..1024).map(|id| (id + 1, 255)).collect();
    let prefixed = [
        dref(&[boxed(b"url ", &[]), ipma(&entries)]),
        boxed(b"urim", &[vec![0u8; 8], ipma(&entries)].concat()),
        visual_sample_entry(b"hvc1", &[ipma(&entries)]),
    ];
    for bytes in prefixed {
        assert!(
            matches!(
                preflight(&meta(&[bytes]), &budget()),
                Err(Error::Limit("property association count"))
            ),
            "a container behind a prefix was not counted"
        );
    }
}

#[test]
fn rejects_deeply_nested_counted_containers() {
    // The counted parsers descend through the shared dispatch rather than
    // through the walk, so the depth ceiling has to apply there too.
    let mut nested = iinf(&[]);
    for _ in 0..40 {
        nested = iinf(&[nested]);
    }
    assert!(matches!(
        preflight(&meta(&[nested]), &budget()),
        Err(Error::Limit("box nesting depth"))
    ));
}

#[test]
fn counts_track_reference_destinations() {
    // Each list stays inside the per-list ceiling, but the decoder bounds only
    // that list, so the walk counts destinations across all of them.
    let list: Vec<u8> = 1u32.to_be_bytes().repeat(3000);
    let children: Vec<Vec<u8>> = (0..2).map(|_| boxed(b"hint", &list)).collect();
    assert!(matches!(
        preflight(&meta(&[tref(&children)]), &budget()),
        Err(Error::Limit("reference count"))
    ));
}

#[test]
fn handles_uuid_extended_headers() {
    // A `uuid` box's sixteen-byte extended type is part of its header, so a
    // sibling must still be found after it and a trailing one must parse.
    let entries: Vec<(u32, usize)> = (0..1024).map(|id| (id + 1, 255)).collect();
    let bytes = meta(&[uuid(&[0u8; 16], &[]), boxed(b"iprp", &ipma(&entries))]);
    assert!(matches!(
        preflight(&bytes, &budget()),
        Err(Error::Limit("property association count"))
    ));
    assert!(preflight(&meta(&[uuid(&[0u8; 16], &[])]), &budget()).is_ok());
}

#[test]
fn validates_the_sample_entry_compressor_name_length() {
    let entries: Vec<(u32, usize)> = (0..1024).map(|id| (id + 1, 255)).collect();
    // A name length that fits the field leaves the children where the walk
    // expects them.
    for length in [0u8, 31] {
        let bytes = meta(&[visual_sample_entry_named(
            b"hvc1",
            length,
            &[ipma(&entries)],
        )]);
        assert!(
            matches!(
                preflight(&bytes, &budget()),
                Err(Error::Limit("property association count"))
            ),
            "name length {length} should still reach the child"
        );
    }
    // A name length that does not fit makes the pinned parser read children
    // from a different offset, so the entry is refused instead of walked.
    for length in [32u8, 255] {
        let bytes = meta(&[visual_sample_entry_named(
            b"hvc1",
            length,
            &[ipma(&entries)],
        )]);
        assert!(
            matches!(preflight(&bytes, &budget()), Err(Error::Container(_))),
            "name length {length} should be refused"
        );
    }
}

#[test]
fn does_not_traverse_an_opaque_sample_entry() {
    // `uncv` is not dispatched in the pinned build, so its payload is not a
    // box tree and must not be walked.
    assert!(preflight(&meta(&[boxed(b"uncv", &[0u8; 8])]), &budget()).is_ok());
}

#[test]
fn rejects_a_track_reference_list_without_a_declared_size() {
    let mut body = Vec::new();
    body.extend_from_slice(&0u32.to_be_bytes());
    body.extend_from_slice(&[0u8; 8]);
    assert!(matches!(
        preflight(&meta(&[boxed(b"tref", &body)]), &budget()),
        Err(Error::Container(_))
    ));
}

#[test]
fn rejects_records_that_are_legal_per_box() {
    // Two `iinf` boxes each inside the per-box ceiling.
    let entries: Vec<Vec<u8>> = (0..3000).map(|id| infe(id + 1, b"hvc1", None)).collect();
    let children = vec![iinf(&entries), iinf(&entries)];
    assert!(matches!(
        preflight(&meta(&children), &budget()),
        Err(Error::Limit("container item count"))
    ));
}

#[test]
fn rejects_item_location_records_that_are_legal_per_box() {
    let entries: Vec<Vec<u8>> = (0..3000).map(|id| infe(id + 1, b"hvc1", None)).collect();
    let records: Vec<(u32, u32)> = (0..3000).map(|id| (id + 1, 16)).collect();
    let children = vec![iinf(&entries), iloc(&records), iloc(&records)];
    assert!(matches!(
        preflight(&meta(&children), &budget()),
        Err(Error::Limit("item location record count"))
    ));
}

#[test]
fn rejects_metadata_item_counts() {
    let entries: Vec<Vec<u8>> = (0..200).map(|id| infe(id + 10, b"Exif", None)).collect();
    assert!(matches!(
        preflight(&meta(&[iinf(&entries)]), &budget()),
        Err(Error::Limit("metadata item count"))
    ));
}

#[test]
fn counts_region_annotations_as_eagerly_loaded_items() {
    // The decoder skips `rgan` in its ordinary metadata pass only because a
    // later pass loads and parses the regions.
    let entries: Vec<Vec<u8>> = (0..200).map(|id| infe(id + 10, b"rgan", None)).collect();
    assert!(matches!(
        preflight(&meta(&[iinf(&entries)]), &budget()),
        Err(Error::Limit("metadata item count"))
    ));
}

#[test]
fn charges_every_mime_item_because_a_later_pass_loads_them() {
    // The decoder's text pass loads every `mime` item, so a MIME image is
    // eagerly read even though the ordinary metadata pass skips it.
    let terminated: Vec<Vec<u8>> = (0..200)
        .map(|id| infe(id + 10, b"mime", Some("image/jpeg")))
        .collect();
    assert!(matches!(
        preflight(&meta(&[iinf(&terminated)]), &budget()),
        Err(Error::Limit("metadata item count"))
    ));
    // An unterminated content type reads one byte shorter and is therefore
    // not an image either, but it is charged for the same reason.
    let unterminated: Vec<Vec<u8>> = (0..200)
        .map(|id| infe_mime_without_terminator(id + 10, "image/jpeg"))
        .collect();
    assert!(matches!(
        preflight(&meta(&[iinf(&unterminated)]), &budget()),
        Err(Error::Limit("metadata item count"))
    ));
}

#[test]
fn charges_a_shared_extent_once_per_item() {
    // Fifty items that all point at the same one-megabyte extent stay under
    // the item ceiling but not under the byte budget, because the decoder gives
    // each item its own allocation.
    let entries: Vec<Vec<u8>> = (0..50).map(|id| infe(id + 10, b"Exif", None)).collect();
    let records: Vec<(u32, u32)> = (0..50).map(|id| (id + 10, 1024 * 1024)).collect();
    assert!(matches!(
        preflight(&meta(&[iinf(&entries), iloc(&records)]), &budget()),
        Err(Error::Limit("metadata extent bytes"))
    ));
}

#[test]
fn charges_the_largest_record_for_an_item() {
    // The decoder selects one metadata box and reads its locations, so a decoy
    // box declaring a zero-length extent must not hide the real one.
    let entries: Vec<Vec<u8>> = (0..8).map(|id| infe(id + 10, b"Exif", None)).collect();
    let decoy: Vec<(u32, u32)> = (0..8).map(|id| (id + 10, 0)).collect();
    let real: Vec<(u32, u32)> = (0..8).map(|id| (id + 10, 1024 * 1024)).collect();
    let children = [
        meta(&[iinf(&entries), iloc(&decoy)]),
        meta(&[iinf(&entries), iloc(&real)]),
    ];
    assert!(matches!(
        preflight(&children.concat(), &budget()),
        Err(Error::Limit("metadata extent bytes"))
    ));
}

#[test]
fn counts_item_location_records_in_every_version() {
    // Eight metadata items that each declare a one-megabyte extent exceed
    // the byte budget, and the record walk must reach that conclusion for
    // every `iloc` version.
    let entries: Vec<Vec<u8>> = (0..8).map(|id| infe(id + 1, b"Exif", None)).collect();
    let records: Vec<(u32, u32)> = (0..8).map(|id| (id + 1, 1024 * 1024)).collect();
    for version in [0u8, 1, 2] {
        let bytes = meta(&[iinf(&entries), iloc_version(version, &records)]);
        assert!(
            matches!(
                preflight(&bytes, &budget()),
                Err(Error::Limit("metadata extent bytes"))
            ),
            "item location version {version} did not charge its extents"
        );
    }
}

#[test]
fn rejects_extent_counts_beyond_the_item_ceiling() {
    // Field widths of zero mean an extent consumes no bytes, so an
    // unbounded count would let a tiny box drive a very large loop.
    let extents: Vec<u32> = vec![1; 40];
    let bytes = meta(&[
        iinf(&[infe(1, b"Exif", None)]),
        iloc_extents(0, &[(1, extents)]),
    ]);
    assert!(matches!(
        preflight(&bytes, &budget()),
        Err(Error::Limit("item extent count"))
    ));
}

#[test]
fn rejects_reference_lists_that_do_not_fill_their_box() {
    // The decoder reads a reference child's fields from the enclosing stream, so
    // a child declaring a larger size than its fields need would be read
    // again as further records.
    let mut child = Vec::new();
    child.extend_from_slice(&1u16.to_be_bytes());
    child.extend_from_slice(&1u16.to_be_bytes());
    child.extend_from_slice(&2u16.to_be_bytes());
    child.extend_from_slice(&0u32.to_be_bytes()); // padding the parser ignores
    let bytes = meta(&[full_box(b"iref", 0, 0, &boxed(b"cdsc", &child))]);
    assert!(matches!(
        preflight(&bytes, &budget()),
        Err(Error::Container(_))
    ));

    // A zero-length reference list is rejected by the parser as well.
    let empty = full_box(b"iref", 0, 0, &boxed(b"cdsc", &[0, 1, 0, 0]));
    assert!(matches!(
        preflight(&meta(&[empty]), &budget()),
        Err(Error::Container(_))
    ));
}

#[test]
fn rejects_containers_beyond_the_box_and_depth_ceilings() {
    let limits = Budget {
        max_container_boxes: 4,
        ..budget()
    };
    let children: Vec<Vec<u8>> = (0..8).map(|id| infe(id + 1, b"hvc1", None)).collect();
    assert!(matches!(
        preflight(&meta(&[iinf(&children)]), &limits),
        Err(Error::Limit("box count"))
    ));

    let deep = Budget {
        max_container_depth: 1,
        ..budget()
    };
    let nested = meta(&[boxed(b"iprp", &boxed(b"ipco", &boxed(b"grpl", &[])))]);
    assert!(matches!(
        preflight(&nested, &deep),
        Err(Error::Limit("box nesting depth"))
    ));
}

#[test]
fn rejects_malformed_or_incomplete_containers() {
    let limits = budget();
    // No metadata box at all, and no minimised or sequence-brand file.
    assert!(matches!(
        preflight(&ftyp(b"heic", &[b"mif1"]), &limits),
        Err(Error::Container(_))
    ));
    // A box that runs past the end of the file.
    let mut truncated = meta(&[iinf(&[infe(1, b"hvc1", None)])]);
    truncated.truncate(truncated.len() - 4);
    assert!(matches!(
        preflight(&truncated, &limits),
        Err(Error::Container(_))
    ));
    // An `iinf` whose declared count disagrees with its entries.
    let mut body = Vec::new();
    body.extend_from_slice(&3u16.to_be_bytes());
    body.extend_from_slice(&infe(1, b"hvc1", None));
    let mismatched = full_box(b"iinf", 0, 0, &body);
    assert!(matches!(
        preflight(&meta(&[mismatched]), &limits),
        Err(Error::Container(_))
    ));
    // An item location record whose widths the walk cannot follow.
    let mut body = Vec::new();
    body.extend_from_slice(&0x2220u16.to_be_bytes());
    body.extend_from_slice(&0u16.to_be_bytes());
    let narrow = full_box(b"iloc", 0, 0, &body);
    assert!(matches!(
        preflight(&meta(&[narrow]), &limits),
        Err(Error::Container(_))
    ));
    // A `meta` box whose body cannot hold its own full-box header.
    let short = boxed(b"meta", &[0, 0]);
    assert!(matches!(
        preflight(&short, &limits),
        Err(Error::Container(_))
    ));
}

#[test]
fn accepts_a_metadata_box_reached_through_a_movie_box() {
    let bytes = boxed(b"moov", &meta(&[iinf(&[infe(1, b"hvc1", None)])]));
    assert!(preflight(&bytes, &budget()).is_ok());
}

#[test]
fn accepts_the_shapes_that_do_not_require_a_metadata_box() {
    // A minimised file carries its image in a `mini` box.
    let mini = boxed(b"mini", &[0; 32]);
    assert!(preflight(&mini, &budget()).is_ok());
    // A sequence brand uses a movie box instead.
    let sequence = boxed(b"moov", &[]);
    let mut file = ftyp(b"msf1", &[b"isom"]);
    file.extend_from_slice(&sequence);
    assert!(preflight(&file, &budget()).is_ok());
}

fn refused(bytes: &[u8]) -> String {
    match preflight(bytes, &budget()) {
        Err(Error::Container(text)) => text,
        other => panic!("expected a container error, got {other:?}"),
    }
}

#[test]
fn container_errors_name_what_is_wrong() {
    assert_eq!(refused(&[0, 0, 0]), "box is truncated");
    assert_eq!(refused(&[0, 0, 0, 4, b'f', b'r', b'e', b'e']), "box is smaller than its header");
    assert_eq!(
        refused(&[0, 0, 0, 9, b'f', b'r', b'e', b'e']),
        "box extends past its parent"
    );
    let mut huge = boxed(b"free", &[]);
    huge.extend_from_slice(&1u32.to_be_bytes());
    huge.extend_from_slice(b"free");
    huge.extend_from_slice(&u64::MAX.to_be_bytes());
    assert_eq!(refused(&huge), "box offset overflow");
    assert_eq!(refused(&boxed(b"free", &[])), "no metadata box");
    assert_eq!(refused(&boxed(b"ftyp", &[0; 7])), "file type box is truncated");
    assert_eq!(
        refused(&meta(&[full_box(b"infe", 4, 0, &[0; 16])])),
        "unsupported item info version"
    );
    assert_eq!(
        refused(&meta(&[full_box(b"iloc", 3, 0, &[0; 16])])),
        "unsupported item location version"
    );
    assert_eq!(
        refused(&meta(&[full_box(b"iloc", 0, 0, &[0x22, 0x20, 0, 0])])),
        "unsupported item location field width"
    );
    assert_eq!(
        refused(&meta(&[full_box(b"iref", 2, 0, &[])])),
        "unsupported reference version"
    );
    assert_eq!(
        refused(&meta(&[full_box(b"iref", 0, 0, &boxed(b"cdsc", &[0, 1, 0, 0]))])),
        "reference list is empty"
    );
    assert_eq!(
        refused(&meta(&[full_box(b"iref", 0, 0, &boxed(b"cdsc", &[0, 1, 0, 1, 0, 2, 0]))])),
        "reference list does not fill its box"
    );
    assert_eq!(
        refused(&meta(&[tref(&[boxed(b"hint", &[0; 6])])])),
        "track reference list has an invalid size"
    );
    assert_eq!(
        refused(&meta(&[boxed(b"tref", &[0; 12])])),
        "track reference list has an unspecified size"
    );
    assert_eq!(
        refused(&meta(&[full_box(b"ipma", 2, 0, &[0; 4])])),
        "unsupported property association version"
    );
    assert_eq!(
        refused(&meta(&[full_box(b"stsd", 1, 0, &[0; 4])])),
        "unsupported sample description version"
    );
    assert_eq!(
        refused(&meta(&[full_box(b"stsd", 0, 0, &[0, 0, 0, 1])])),
        "sample description is truncated"
    );
    assert_eq!(
        refused(&meta(&[full_box(b"iinf", 0, 0, &[0, 1])])),
        "item information count does not match its entries"
    );
    assert_eq!(
        refused(&meta(&[visual_sample_entry_named(b"avc1", 32, &[])])),
        "sample entry compressor name is too long"
    );
}

#[test]
fn extent_bytes_that_cannot_be_counted_are_refused() {
    // Two eight-byte lengths whose sum does not fit.
    let mut body = 0x0800u16.to_be_bytes().to_vec();
    body.extend_from_slice(&1u16.to_be_bytes());
    body.extend_from_slice(&1u16.to_be_bytes());
    body.extend_from_slice(&0u16.to_be_bytes());
    body.extend_from_slice(&2u16.to_be_bytes());
    body.extend_from_slice(&u64::MAX.to_be_bytes());
    body.extend_from_slice(&1u64.to_be_bytes());
    assert!(matches!(
        preflight(&meta(&[full_box(b"iloc", 0, 0, &body)]), &budget()),
        Err(Error::Limit("item extent bytes"))
    ));
}

#[test]
fn a_wider_budget_accepts_what_a_narrow_one_accepts() {
    let bytes = meta(&[
        iinf(&[infe(1, b"hvc1", None), infe(2, b"Exif", None)]),
        iloc(&[(1, 1024), (2, 64)]),
    ]);
    let exact = Budget {
        max_container_items: 2,
        max_container_associations: 0,
        max_metadata_items: 1,
        max_metadata_bytes: 64,
        max_container_boxes: 5,
        max_container_depth: 2,
        max_item_extents: 1,
    };
    assert!(preflight(&bytes, &exact).is_ok());
    assert!(preflight(&bytes, &budget()).is_ok());
    let short = Budget { max_metadata_bytes: 63, ..exact };
    assert!(matches!(
        preflight(&bytes, &short),
        Err(Error::Limit("metadata extent bytes"))
    ));
}

#[test]
fn boxes_are_classified_by_their_four_characters() {
    let kind = |text: &[u8; 4]| u32::from_be_bytes(*text);
    for text in [
        b"iprp", b"ipco", b"dinf", b"grpl", b"moov", b"trak", b"mdia", b"minf", b"stbl", b"edts",
        b"j2kH",
    ] {
        assert!(is_container(kind(text)));
    }
    assert!(!is_container(kind(b"tilC")));
    for text in [b"hvc1", b"av01", b"vvc1", b"avc1", b"mjpg", b"j2ki"] {
        assert!(is_visual_sample_entry(kind(text)));
    }
    assert!(!is_visual_sample_entry(kind(b"uncv")));
    for text in [b"msf1", b"isom", b"mp41", b"mp42"] {
        assert!(is_sequence_brand(kind(text)));
    }
    assert!(!is_sequence_brand(kind(b"mif1")));
    for text in [
        b"hvc1", b"av01", b"grid", b"tili", b"iden", b"iovl", b"avc1", b"unci", b"vvc1", b"jpeg",
        b"j2k1", b"mski",
    ] {
        assert!(is_image_item(kind(text), b""));
    }
    assert!(is_image_item(kind(b"mime"), b"image/jpeg"));
    assert!(!is_image_item(kind(b"mime"), b"image/jpe"));
    assert!(!is_image_item(kind(b"Exif"), b"image/jpeg"));
}
