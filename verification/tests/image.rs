use sbat::{Component, Entry, Generation, ImageSbat, ParseError, Vendor};

const VALID_SBAT: &[u8] = b"sbat,1,SBAT Version,sbat,1,https://github.com/rhboot/shim/blob/main/SBAT.md
shim,1,UEFI shim,shim,1,https://github.com/rhboot/shim";

fn ascii(s: &str) -> &[u8] {
    s.as_bytes()
}

fn parse_success_helper(image_sbat: &ImageSbat) {
    assert_eq!(
        image_sbat.entries().collect(),
        [
            Entry::new(
                Component {
                    name: ascii("sbat"),
                    generation: Generation::new(1).unwrap(),
                },
                Vendor {
                    name: Some(ascii("SBAT Version")),
                    package_name: Some(ascii("sbat")),
                    version: Some(ascii("1")),
                    url: Some(ascii("https://github.com/rhboot/shim/blob/main/SBAT.md")),
                },
            ),
            Entry::new(
                Component {
                    name: ascii("shim"),
                    generation: Generation::new(1).unwrap(),
                },
                Vendor {
                    name: Some(ascii("UEFI shim")),
                    package_name: Some(ascii("shim")),
                    version: Some(ascii("1")),
                    url: Some(ascii("https://github.com/rhboot/shim")),
                }
            )
        ]
    );
}

#[test]
fn image_parse_success_array() {
    parse_success_helper(&ImageSbat::parse(VALID_SBAT).unwrap());
}

#[test]
fn invalid_record_array() {
    assert_eq!(ImageSbat::parse(b"a"), Err(ParseError::TooFewFields));
}

#[test]
fn null_terminated_truncation() {
    let with_null = ImageSbat::parse(b"a,1\0garbage").unwrap();
    let without_null = ImageSbat::parse(b"a,1").unwrap();
    assert_eq!(with_null.as_csv(), b"a,1");
    assert_eq!(with_null.entries().collect(), without_null.entries().collect());
    assert_eq!(
        with_null.entries().collect(),
        [Entry::new(
            Component::new(b"a", Generation::new(1).unwrap()),
            Vendor::default()
        )]
    );
}

#[test]
fn garbage_after_null_is_not_checked() {
    assert!(ImageSbat::parse(b"a,1\0\xff\"\\").is_ok());
}

#[test]
fn non_ascii_is_rejected() {
    assert_eq!(ImageSbat::parse(b"a\xc3\xa9,1"), Err(ParseError::InvalidAscii));
    assert_eq!(ImageSbat::parse(&[0x80]), Err(ParseError::InvalidAscii));
    assert!(ImageSbat::parse(&[0x7e, b',', b'1']).is_ok());
}

#[test]
fn empty_and_all_null_input() {
    assert!(ImageSbat::parse(b"").unwrap().entries().collect().is_empty());
    assert!(ImageSbat::parse(&[0, 0, 0]).unwrap().entries().collect().is_empty());
    assert!(ImageSbat::parse(b"\n\r\n\n").unwrap().entries().collect().is_empty());
}

#[test]
fn special_char_aborts_whole_parse() {
    assert_eq!(
        ImageSbat::parse(b"a,1\nb,2\nc,\"3\"\n"),
        Err(ParseError::SpecialChar(b'"'))
    );
    assert_eq!(
        ImageSbat::parse(b"a,1,x\\y"),
        Err(ParseError::SpecialChar(b'\\'))
    );
    // A carriage return that does not end a line is no field byte.
    assert_eq!(ImageSbat::parse(b"a,1\r"), Err(ParseError::SpecialChar(b'\r')));
}

#[test]
fn first_error_in_line_order_wins() {
    assert_eq!(ImageSbat::parse(b"a\nb,\"1\""), Err(ParseError::TooFewFields));
    assert_eq!(
        ImageSbat::parse(b"a,x\nb"),
        Err(ParseError::InvalidGeneration)
    );
    // Within a line the bytes are checked before the fields are read.
    assert_eq!(ImageSbat::parse(b"a,x,\\"), Err(ParseError::SpecialChar(b'\\')));
}

#[test]
fn invalid_generations() {
    for text in [
        &b"a,0"[..],
        b"a,",
        b"a,+1",
        b"a,-1",
        b"a, 1",
        b"a,1 ",
        b"a,1x",
        b"a,4294967296",
        b"a,99999999999999999999999",
    ] {
        assert_eq!(ImageSbat::parse(text), Err(ParseError::InvalidGeneration));
    }
}

#[test]
fn valid_generations() {
    for (text, expected) in [
        (&b"a,1"[..], 1u32),
        (b"a,007", 7),
        (b"a,4294967295", u32::MAX),
        (b"a,0000000000004294967295", u32::MAX),
    ] {
        let image = ImageSbat::parse(text).unwrap();
        let entries = image.entries().collect();
        assert_eq!(entries.len(), 1);
        assert_eq!(entries[0].component.generation.to_u32(), expected);
    }
}

#[test]
fn vendor_fields_are_optional() {
    let image = ImageSbat::parse(b"a,1,v\nb,2,,p\nc,3,v,p,1.0,u,extra,more").unwrap();
    let entries = image.entries().collect();
    assert_eq!(entries.len(), 3);
    assert_eq!(
        entries[0].vendor,
        Vendor {
            name: Some(b"v"),
            package_name: None,
            version: None,
            url: None
        }
    );
    assert_eq!(
        entries[1].vendor,
        Vendor {
            name: Some(b""),
            package_name: Some(b"p"),
            version: None,
            url: None
        }
    );
    assert_eq!(
        entries[2].vendor,
        Vendor {
            name: Some(b"v"),
            package_name: Some(b"p"),
            version: Some(b"1.0"),
            url: Some(b"u")
        }
    );
}

#[test]
fn entries_iterator_is_restartable() {
    let image = ImageSbat::parse(b"a,1\n\nb,2\r\n").unwrap();
    let mut first = image.entries();
    assert_eq!(first.next().unwrap().component.name, b"a");
    assert_eq!(first.next().unwrap().component.name, b"b");
    assert!(first.next().is_none());
    assert!(first.next().is_none());
    assert_eq!(image.entries().collect().len(), 2);
}

#[test]
fn empty_name_is_rejected() {
    assert_eq!(ImageSbat::parse(b",1"), Err(ParseError::TooFewFields));
    assert_eq!(ImageSbat::parse(b",1,v,p"), Err(ParseError::TooFewFields));
    assert_eq!(ImageSbat::parse(b"a,1\n,2"), Err(ParseError::TooFewFields));
    // The name is looked at before the generation.
    assert_eq!(ImageSbat::parse(b",x"), Err(ParseError::TooFewFields));
    assert_eq!(ImageSbat::parse(b","), Err(ParseError::TooFewFields));
    // A name of one blank is a name.
    assert!(ImageSbat::parse(b" ,1").is_ok());
}
