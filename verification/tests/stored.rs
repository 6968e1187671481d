use sbat::{
    ArrayStorage, Component, Entry, Generation, ImageSbat, ImageSbatArray, ImageSbatOwned,
    Metadata, ParseError, RevocationSbatArray, RevocationSbatOwned, SliceVec, ValidationResult,
    Veclike, Vendor,
};

fn ascii(s: &str) -> &[u8] {
    s.as_bytes()
}

fn make_component(name: &str, gen: u32) -> Component<'_> {
    Component::new(ascii(name), Generation::new(gen).unwrap())
}

fn make_entry(name: &str, gen: u32) -> Entry<'_> {
    Entry::new(make_component(name, gen), Vendor::default())
}

const SHIM_SBAT: &[u8] = b"sbat,1,SBAT Version,sbat,1,https://github.com/rhboot/shim/blob/main/SBAT.md
shim,1,UEFI shim,shim,1,https://github.com/rhboot/shim";

fn shim_entries() -> [Entry<'static>; 2] {
    [
        Entry::new(
            Component {
                name: b"sbat",
                generation: Generation::new(1).unwrap(),
            },
            Vendor {
                name: Some(b"SBAT Version"),
                package_name: Some(b"sbat"),
                version: Some(b"1"),
                url: Some(b"https://github.com/rhboot/shim/blob/main/SBAT.md"),
            },
        ),
        Entry::new(
            Component {
                name: b"shim",
                generation: Generation::new(1).unwrap(),
            },
            Vendor {
                name: Some(b"UEFI shim"),
                package_name: Some(b"shim"),
                version: Some(b"1"),
                url: Some(b"https://github.com/rhboot/shim"),
            },
        ),
    ]
}

#[test]
fn parse_success() {
    // The current value of the SBAT data in the shim repo.
    let mut array = [Entry::default(); 2];
    let mut metadata = Metadata::new(SliceVec::new(&mut array));
    metadata.parse(SHIM_SBAT).unwrap();

    assert_eq!(metadata.entries(), shim_entries());
}

#[test]
fn invalid_record() {
    let mut array = [Entry::default(); 2];
    let mut metadata = Metadata::new(SliceVec::new(&mut array));
    assert_eq!(metadata.parse(b"a"), Err(ParseError::TooFewFields));
}

/// Test that `Metadata::new` does not clear the storage, and test
/// that `Metadata::parse` does clear the storage.
#[test]
fn storage_clear() {
    let mut array = [Entry::default(); 2];
    let mut storage = SliceVec::new(&mut array);
    storage.try_push(Entry::default()).unwrap();

    // Initially the input storage has one entry, which should stay
    // true after calling `new`.
    let mut metadata = Metadata::new(storage);
    assert_eq!(metadata.entries().len(), 1);

    // Calling parse should clear out the existing data.
    metadata.parse(b"").unwrap();
    assert!(metadata.entries().is_empty());
}

#[test]
fn image_parse_success_vec() {
    let image = ImageSbatOwned::parse(SHIM_SBAT).unwrap();
    assert_eq!(image.entries(), shim_entries());
}

#[test]
fn invalid_record_vec() {
    assert_eq!(ImageSbatOwned::parse(b"a"), Err(ParseError::TooFewFields));
}

#[test]
fn revocations_parse_success_vec() {
    let revocations = RevocationSbatOwned::parse(b"sbat,1,2021030218\ncompA,1\ncompB,2").unwrap();
    assert_eq!(revocations.date(), Some(ascii("2021030218")));
    assert_eq!(
        revocations.revoked_components(),
        [
            make_component("sbat", 1),
            make_component("compA", 1),
            make_component("compB", 2)
        ],
    );
}

#[test]
fn test_default() {
    assert_eq!(ImageSbatOwned::new(), ImageSbatOwned::default());
    assert_eq!(RevocationSbatOwned::new(), RevocationSbatOwned::default());
}

#[test]
fn test_try_push() {
    let mut image_sbat = ImageSbatArray::<1>::new();
    image_sbat.try_push(Entry::default()).unwrap();
    assert_eq!(
        image_sbat.try_push(Entry::default()),
        Err(ParseError::TooManyRecords)
    );

    let mut revocations = RevocationSbatArray::<1>::new();
    revocations.try_push(Component::default()).unwrap();
    assert_eq!(
        revocations.try_push(Component::default()),
        Err(ParseError::TooManyRecords)
    );
}

#[test]
fn failed_push_keeps_what_was_pushed() {
    let mut image = ImageSbatArray::<2>::new();
    image.try_push(make_entry("a", 1)).unwrap();
    image.try_push(make_entry("b", 2)).unwrap();
    assert_eq!(
        image.try_push(make_entry("c", 3)),
        Err(ParseError::TooManyRecords)
    );
    assert_eq!(image.entries(), [make_entry("a", 1), make_entry("b", 2)]);
}

#[test]
fn array_storage() {
    let mut storage = ArrayStorage::<u8, 2>::new(0);
    assert!(storage.as_slice().is_empty());
    assert_eq!(storage.try_push(1), Ok(()));
    assert_eq!(storage.try_push(2), Ok(()));
    assert_eq!(storage.try_push(3), Err(ParseError::TooManyRecords));
    assert_eq!(storage.as_slice(), [1, 2]);
    storage.clear();
    assert!(storage.as_slice().is_empty());
    assert_eq!(storage.try_push(9), Ok(()));
    assert_eq!(storage.as_slice(), [9]);
}

#[test]
fn too_many_records_fails_the_whole_parse() {
    assert_eq!(
        ImageSbatArray::<2>::parse(b"a,1\nb,2\nc,3").err(),
        Some(ParseError::TooManyRecords)
    );
    assert_eq!(ImageSbatArray::<3>::parse(b"a,1\nb,2\nc,3").unwrap().entries().len(), 3);
    assert_eq!(
        ImageSbatArray::<0>::parse(b"a,1").err(),
        Some(ParseError::TooManyRecords)
    );
    assert!(ImageSbatArray::<0>::parse(b"\n\n").is_ok());
    assert_eq!(
        RevocationSbatArray::<1>::parse(b"a,1\nb,2").err(),
        Some(ParseError::TooManyRecords)
    );

    let mut array = [Entry::default(); 2];
    let mut metadata = Metadata::new(SliceVec::new(&mut array));
    assert_eq!(
        metadata.parse(b"a,1\nb,2\nc,3"),
        Err(ParseError::TooManyRecords)
    );
    // Nothing is left behind by the failed parse.
    assert!(metadata.entries().is_empty());
}

#[test]
fn invalid_line_reports_its_own_error_when_storage_is_full() {
    assert_eq!(
        ImageSbatArray::<1>::parse(b"a,1\nb").err(),
        Some(ParseError::TooFewFields)
    );
    assert_eq!(
        ImageSbatArray::<1>::parse(b"a,1\nb,2\nc").err(),
        Some(ParseError::TooManyRecords)
    );
}

#[test]
fn storage_strategies_agree() {
    let inputs: [&[u8]; 6] = [
        b"",
        b"a,1",
        b"a,1,v,p,1.0,u\n\nb,2\r\n",
        b"a,1\nb",
        b"a,1\nb,\\",
        b"a,x",
    ];
    for input in inputs {
        let borrowed = ImageSbat::parse(input).map(|image| image.entries().collect());
        let owned = ImageSbatOwned::parse(input).map(|image| image.entries().to_vec());
        let array = ImageSbatArray::<4>::parse(input).map(|image| image.entries().to_vec());
        let mut slots = [Entry::default(); 4];
        let mut metadata = Metadata::new(SliceVec::new(&mut slots));
        let stored = metadata.parse(input).map(|()| metadata.entries().to_vec());
        let mut grown = Metadata::new(Vec::new());
        let vec_stored = grown.parse(input).map(|()| grown.entries().to_vec());
        assert_eq!(borrowed, owned);
        assert_eq!(borrowed, array);
        assert_eq!(borrowed, stored);
        assert_eq!(borrowed, vec_stored);
    }
}

#[test]
fn stored_revocations_validate() {
    let revocations = RevocationSbatOwned::parse(b"compA,2\ncompB,3").unwrap();
    let array = RevocationSbatArray::<2>::parse(b"compA,2\ncompB,3").unwrap();
    let image = ImageSbatOwned::parse(b"compA,1\ncompB,2").unwrap();
    assert_eq!(
        revocations.validate_image(image.entries()),
        ValidationResult::Revoked(make_entry("compA", 1))
    );
    assert_eq!(
        array.validate_image(image.entries()),
        ValidationResult::Revoked(make_entry("compA", 1))
    );
    let image = ImageSbatOwned::parse(b"compC,1").unwrap();
    assert_eq!(
        revocations.validate_image(image.entries()),
        ValidationResult::Allowed
    );
    assert!(array.is_component_revoked(&make_component("compB", 2)));
    assert!(!revocations.is_component_revoked(&make_component("compB", 3)));
}

#[test]
fn pushed_records_are_written_out() {
    let mut image = ImageSbatOwned::new();
    image.push(make_entry("a", 1));
    image.try_push(Entry::new(
        make_component("b", 20),
        Vendor {
            name: None,
            package_name: Some(b"p"),
            version: None,
            url: None,
        },
    ))
    .unwrap();
    assert_eq!(image.to_csv(), b"a,1\nb,20,,p\n");

    let mut revocations = RevocationSbatOwned::new();
    assert_eq!(revocations.to_csv(), b"");
    revocations.set_date(Some(b"2024"));
    assert_eq!(revocations.to_csv(), b"");
    revocations.push(make_component("sbat", 1));
    revocations.push(make_component("grub", 4));
    assert_eq!(revocations.to_csv(), b"sbat,1,2024\ngrub,4\n");
    assert_eq!(revocations.date(), Some(&b"2024"[..]));
    revocations.set_date(None);
    assert_eq!(revocations.to_csv(), b"sbat,1\ngrub,4\n");
}

#[test]
fn round_trip() {
    let inputs: [&[u8]; 5] = [
        b"",
        b"a,1",
        b"\n\na,007,v\r\nb,2,,,,u,comment\n\nc,3,,\n",
        SHIM_SBAT,
        b"x,4294967295,a b,c:d,e-f,http://g/?h\0trailing",
    ];
    for input in inputs {
        let first = ImageSbatOwned::parse(input).unwrap();
        let written = first.to_csv();
        let second = ImageSbatOwned::parse(&written).unwrap();
        assert_eq!(first.entries(), second.entries());
        // What was written is already in the form that is written.
        assert_eq!(second.to_csv(), written);
    }
}

#[test]
fn empty_name_is_rejected_by_stored_parsers() {
    assert_eq!(ImageSbatOwned::parse(b",1"), Err(ParseError::TooFewFields));
    assert_eq!(
        ImageSbatArray::<2>::parse(b",1").err(),
        Some(ParseError::TooFewFields)
    );
    assert_eq!(
        RevocationSbatOwned::parse(b",1"),
        Err(ParseError::TooFewFields)
    );
    assert_eq!(
        RevocationSbatArray::<2>::parse(b"a,1\n,1").err(),
        Some(ParseError::TooFewFields)
    );
    let mut slots = [Entry::default(); 2];
    let mut metadata = Metadata::new(SliceVec::new(&mut slots));
    assert_eq!(metadata.parse(b"a,1\n,1"), Err(ParseError::TooFewFields));
    assert!(metadata.entries().is_empty());
}
