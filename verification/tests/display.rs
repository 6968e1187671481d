use sbat::{
    Generation, ImageSbatArray, ImageSbatOwned, ParseError, RevocationSbatArray,
    RevocationSbatOwned, RevocationSectionError,
};

const IMAGE_SBAT: &str = "
sbat,1,SBAT Version,sbat,1,https://github.com/rhboot/shim/blob/main/SBAT.md
grub,1,Free Software Foundation,grub,2.04,https://www.gnu.org/software/grub/
grub.fedora,2,The Fedora Project,grub2,2.04-32.fc33,https://src.fedoraproject.org/rpms/grub2
";

const REVOCATION_SBAT_1: &str = "
sbat,1
shim,1
grub,3
";

const REVOCATION_SBAT_2: &str = "
sbat,1,2023070812
shim,1
grub,3
";

fn text(bytes: Vec<u8>) -> String {
    String::from_utf8(bytes).unwrap()
}

#[test]
fn test_image_sbat_array_display() {
    let parsed = ImageSbatArray::<3>::parse(IMAGE_SBAT.as_bytes()).unwrap();
    assert_eq!(text(parsed.to_csv()), IMAGE_SBAT.trim_start());
}

#[test]
fn test_image_sbat_vec_display() {
    let parsed = ImageSbatOwned::parse(IMAGE_SBAT.as_bytes()).unwrap();
    assert_eq!(text(parsed.to_csv()), IMAGE_SBAT.trim_start());
}

#[test]
fn test_revocation_sbat_array_display() {
    let parsed = RevocationSbatArray::<3>::parse(REVOCATION_SBAT_1.as_bytes()).unwrap();
    assert_eq!(text(parsed.to_csv()), REVOCATION_SBAT_1.trim_start());

    let parsed = RevocationSbatArray::<3>::parse(REVOCATION_SBAT_2.as_bytes()).unwrap();
    assert_eq!(text(parsed.to_csv()), REVOCATION_SBAT_2.trim_start());
}

#[test]
fn test_revocation_sbat_vec_display() {
    let parsed = RevocationSbatOwned::parse(REVOCATION_SBAT_1.as_bytes()).unwrap();
    assert_eq!(text(parsed.to_csv()), REVOCATION_SBAT_1.trim_start());

    let parsed = RevocationSbatOwned::parse(REVOCATION_SBAT_2.as_bytes()).unwrap();
    assert_eq!(text(parsed.to_csv()), REVOCATION_SBAT_2.trim_start());
}

#[test]
fn test_error_display() {
    assert_eq!(
        ParseError::SpecialChar(0).message(),
        "CSV field contains special character: 0x00"
    );

    assert_eq!(ParseError::InvalidAscii.message(), "CSV field is not ASCII");
    assert_eq!(
        ParseError::InvalidGeneration.message(),
        "invalid generation, must be a positive integer"
    );
    assert_eq!(
        ParseError::TooFewFields.message(),
        "a CSV record does not have enough fields"
    );
    assert_eq!(
        ParseError::TooManyRecords.message(),
        "too many records for the storage"
    );
}

#[test]
fn special_char_message_is_two_hex_digits() {
    assert_eq!(
        ParseError::SpecialChar(b'\\').message(),
        "CSV field contains special character: 0x5c"
    );
    assert_eq!(
        ParseError::SpecialChar(b'"').message(),
        "CSV field contains special character: 0x22"
    );
    assert_eq!(
        ParseError::SpecialChar(0x0d).message(),
        "CSV field contains special character: 0x0d"
    );
    assert_eq!(
        ParseError::SpecialChar(0x7f).message(),
        "CSV field contains special character: 0x7f"
    );
    assert_eq!(
        ParseError::SpecialChar(0xab).message(),
        "CSV field contains special character: 0xab"
    );
}

#[test]
fn section_error_messages() {
    assert_eq!(
        RevocationSectionError::MissingVersion.message(),
        "missing version field"
    );
    assert_eq!(
        RevocationSectionError::InvalidVersion(1).message(),
        "invalid version: 1"
    );
    assert_eq!(
        RevocationSectionError::InvalidVersion(u32::MAX).message(),
        "invalid version: 4294967295"
    );
    assert_eq!(
        RevocationSectionError::MissingHeader.message(),
        "missing payload header"
    );
    assert_eq!(
        RevocationSectionError::InvalidPreviousOffset(8).message(),
        "invalid previous offset: 8"
    );
    assert_eq!(
        RevocationSectionError::InvalidLatestOffset(1020).message(),
        "invalid latest offset: 1020"
    );
    assert_eq!(
        RevocationSectionError::MissingPreviousNull.message(),
        "missing null terminator for previous data"
    );
    assert_eq!(
        RevocationSectionError::MissingLatestNull.message(),
        "missing null terminator for latest data"
    );
}

#[test]
fn test_generation() {
    assert_eq!(Generation::default(), Generation::new(1).unwrap());
    assert_eq!(Generation::from_ascii(b"123").unwrap().to_u32(), 123);
    assert_eq!(Generation::default().to_ascii(), b"1");
}

#[test]
fn generation_text() {
    assert_eq!(Generation::new(0), Err(ParseError::InvalidGeneration));
    assert_eq!(Generation::new(10).unwrap().to_ascii(), b"10");
    assert_eq!(Generation::new(u32::MAX).unwrap().to_ascii(), b"4294967295");
    assert_eq!(Generation::from_ascii(b"0010").unwrap().to_ascii(), b"10");
    assert_eq!(Generation::from_ascii(b""), Err(ParseError::InvalidGeneration));
    assert_eq!(Generation::from_ascii(b"+1"), Err(ParseError::InvalidGeneration));
    assert_eq!(Generation::from_ascii(b"0"), Err(ParseError::InvalidGeneration));
    assert_eq!(Generation::from_ascii(b"000"), Err(ParseError::InvalidGeneration));
    assert_eq!(
        Generation::from_ascii(b"4294967296"),
        Err(ParseError::InvalidGeneration)
    );
    assert!(Generation::new(1).unwrap() < Generation::new(2).unwrap());
    assert!(Generation::new(7).unwrap() == Generation::new(7).unwrap());
}
