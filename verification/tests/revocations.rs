use sbat::{
    Allowed, Component, Entry, Generation, ImageSbat, ParseError, RevocationSbat, Revoked,
    ValidationResult, Vendor,
};

const VALID_SBAT: &[u8] = b"sbat,1,2021030218\ncompA,1\ncompB,2";

fn ascii(s: &str) -> &[u8] {
    s.as_bytes()
}

fn make_component(name: &str, gen: u32) -> Component<'_> {
    Component::new(ascii(name), Generation::new(gen).unwrap())
}

fn make_entry(name: &str, gen: u32) -> Entry<'_> {
    Entry::new(make_component(name, gen), Vendor::default())
}

fn parse_success_helper(revocations: &RevocationSbat) {
    assert_eq!(revocations.date(), Some(ascii("2021030218")));
    assert_eq!(
        revocations.revoked_components().collect(),
        [
            make_component("sbat", 1),
            make_component("compA", 1),
            make_component("compB", 2)
        ],
    );
}

#[test]
fn revocations_parse_success_array() {
    parse_success_helper(&RevocationSbat::parse(VALID_SBAT).unwrap());
}

#[test]
fn too_few_fields() {
    let input = b"sbat";

    assert_eq!(RevocationSbat::parse(input), Err(ParseError::TooFewFields));
}

#[test]
fn no_date_field() {
    let input = b"sbat,1";

    let revocations = RevocationSbat::parse(input).unwrap();

    assert!(revocations.date().is_none());

    assert_eq!(
        revocations.revoked_components().collect(),
        [make_component("sbat", 1)]
    );
}

#[test]
fn is_component_revoked() {
    let csv = b"compA,2\ncompB,3";
    let revocations = RevocationSbat::parse(csv).unwrap();

    // compA: anything less than 2 is invalid.
    assert!(revocations.is_component_revoked(&make_component("compA", 1)));
    assert!(!revocations.is_component_revoked(&make_component("compA", 2)));
    assert!(!revocations.is_component_revoked(&make_component("compA", 3)));

    // compB: anything less than 3 is invalid.
    assert!(revocations.is_component_revoked(&make_component("compB", 2)));
    assert!(!revocations.is_component_revoked(&make_component("compB", 3)));
    assert!(!revocations.is_component_revoked(&make_component("compB", 4)));

    // compC: anything is valid.
    assert!(!revocations.is_component_revoked(&make_component("compC", 1)));
    assert!(!revocations.is_component_revoked(&make_component("compC", 2)));
    assert!(!revocations.is_component_revoked(&make_component("compC", 3)));
}

#[test]
fn validate_image() {
    let revocations = RevocationSbat::parse(b"compA,2\ncompB,3").unwrap();

    // Invalid component.
    let image = ImageSbat::parse(b"compA,1").unwrap();
    assert_eq!(
        revocations.validate_image(&image),
        Revoked(make_entry("compA", 1))
    );

    // compA valid, compB invalid.
    let image = ImageSbat::parse(b"compA,2\ncompB,2").unwrap();
    assert_eq!(
        revocations.validate_image(&image),
        Revoked(make_entry("compB", 2))
    );

    // compA invalid, compB valid.
    let image = ImageSbat::parse(b"compA,1\ncompB,3").unwrap();
    assert_eq!(
        revocations.validate_image(&image),
        Revoked(make_entry("compA", 1))
    );

    // compA valid, compB valid.
    let image = ImageSbat::parse(b"compA,2\ncompB,3").unwrap();
    assert_eq!(revocations.validate_image(&image), Allowed);

    // compC valid.
    let image = ImageSbat::parse(b"compC,1").unwrap();
    assert_eq!(revocations.validate_image(&image), Allowed);

    // compC valid, compA invalid.
    let image = ImageSbat::parse(b"compC,1\ncompA,1").unwrap();
    assert_eq!(
        revocations.validate_image(&image),
        Revoked(make_entry("compA", 1))
    );
}

#[test]
fn first_revoked_entry_is_reported() {
    let revocations = RevocationSbat::parse(b"compA,2\ncompB,3").unwrap();
    let image = ImageSbat::parse(b"compA,1\ncompB,2").unwrap();
    assert_eq!(
        revocations.validate_image(&image),
        ValidationResult::Revoked(make_entry("compA", 1))
    );

    // The order of the image decides, not that of the revocations.
    let image = ImageSbat::parse(b"compB,2\ncompA,1").unwrap();
    assert_eq!(
        revocations.validate_image(&image),
        ValidationResult::Revoked(make_entry("compB", 2))
    );
}

#[test]
fn unknown_component_is_allowed() {
    let revocations = RevocationSbat::parse(b"compA,2").unwrap();
    let image = ImageSbat::parse(b"compC,1").unwrap();
    assert_eq!(revocations.validate_image(&image), ValidationResult::Allowed);
}

#[test]
fn names_are_compared_exactly() {
    let revocations = RevocationSbat::parse(b"compA,2").unwrap();
    assert!(!revocations.is_component_revoked(&make_component("compa", 1)));
    assert!(!revocations.is_component_revoked(&make_component("compA ", 1)));
    assert!(!revocations.is_component_revoked(&make_component("comp", 1)));
    assert!(revocations.is_component_revoked(&make_component("compA", 1)));
}

#[test]
fn any_matching_revocation_revokes() {
    let revocations = RevocationSbat::parse(b"compA,1\ncompA,5\ncompA,2").unwrap();
    assert!(revocations.is_component_revoked(&make_component("compA", 4)));
    assert!(!revocations.is_component_revoked(&make_component("compA", 5)));
}

#[test]
fn revoked_entry_keeps_its_vendor_data() {
    let revocations = RevocationSbat::parse(b"grub,3").unwrap();
    let image = ImageSbat::parse(b"grub,2,Free Software Foundation,grub,2.04,url").unwrap();
    let expected = Entry::new(
        make_component("grub", 2),
        Vendor {
            name: Some(b"Free Software Foundation"),
            package_name: Some(b"grub"),
            version: Some(b"2.04"),
            url: Some(b"url"),
        },
    );
    assert_eq!(
        revocations.validate_image(&image),
        ValidationResult::Revoked(expected)
    );
}

#[test]
fn date_is_read_from_the_first_record_only() {
    let revocations = RevocationSbat::parse(b"\n\nsbat,1,2023,more\ngrub,2,2024").unwrap();
    assert_eq!(revocations.date(), Some(&b"2023"[..]));
    let revocations = RevocationSbat::parse(b"sbat,1\ngrub,2,2024").unwrap();
    assert_eq!(revocations.date(), None);
    let revocations = RevocationSbat::parse(b"sbat,1,").unwrap();
    assert_eq!(revocations.date(), Some(&b""[..]));
    assert_eq!(RevocationSbat::parse(b"").unwrap().date(), None);
}

#[test]
fn date_plays_no_part_in_validation() {
    let image = ImageSbat::parse(b"sbat,1\ngrub,2").unwrap();
    let older = RevocationSbat::parse(b"sbat,1,2020010100\ngrub,3").unwrap();
    let newer = RevocationSbat::parse(b"sbat,1,2030010100\ngrub,3").unwrap();
    let none = RevocationSbat::parse(b"sbat,1\ngrub,3").unwrap();
    assert_eq!(older.validate_image(&image), newer.validate_image(&image));
    assert_eq!(older.validate_image(&image), none.validate_image(&image));
}

#[test]
fn revocation_text_is_kept() {
    let revocations = RevocationSbat::parse(b"sbat,1\0tail").unwrap();
    assert_eq!(revocations.as_csv(), b"sbat,1");
}

#[test]
fn empty_revocation_name_is_rejected() {
    assert_eq!(RevocationSbat::parse(b",1"), Err(ParseError::TooFewFields));
    assert_eq!(
        RevocationSbat::parse(b",1,2021030218"),
        Err(ParseError::TooFewFields)
    );
    assert_eq!(
        RevocationSbat::parse(b"sbat,1\n,2"),
        Err(ParseError::TooFewFields)
    );
    assert_eq!(RevocationSbat::parse(b",x"), Err(ParseError::TooFewFields));
}

#[test]
fn generations_are_ordered_as_their_numbers() {
    let one = Generation::new(1).unwrap();
    let two = Generation::new(2).unwrap();
    assert!(one < two);
    assert!(!(two < one));
    assert!(!(one < one));
    assert!(one <= one);
    assert!(two > one);
    assert_eq!(one.partial_cmp(&two), Some(std::cmp::Ordering::Less));
    assert_eq!(two.partial_cmp(&two), Some(std::cmp::Ordering::Equal));
    assert_eq!(two.cmp(&one), std::cmp::Ordering::Greater);
}
