use sbat::{RevocationSbat, RevocationSection, RevocationSectionError};

#[test]
fn test_sbat_level_section_errors() {
    assert_eq!(
        RevocationSection::parse(&[0, 0, 0]),
        Err(RevocationSectionError::MissingVersion)
    );

    assert_eq!(
        RevocationSection::parse(&[1, 0, 0, 0]),
        Err(RevocationSectionError::InvalidVersion(1))
    );

    assert_eq!(
        RevocationSection::parse(&[0; 11]),
        Err(RevocationSectionError::MissingHeader)
    );

    let data = [
        // Version.
        0, 0, 0, 0,
        // Previous offset.
        8, 0, 0, 0,
        // Latest offset.
        8, 0, 0, 0,
    ];
    assert_eq!(
        RevocationSection::parse(&data),
        Err(RevocationSectionError::InvalidPreviousOffset(8))
    );

    let data = [
        // Version.
        0, 0, 0, 0,
        // Previous offset.
        8, 0, 0, 0,
        // Latest offset.
        9, 0, 0, 0,
        // Previous data.
        0,
    ];
    assert_eq!(
        RevocationSection::parse(&data),
        Err(RevocationSectionError::InvalidLatestOffset(9))
    );

    let data = [
        // Version.
        0, 0, 0, 0,
        // Previous offset.
        8, 0, 0, 0,
        // Latest offset.
        8, 0, 0, 0,
        // Previous data.
        1,
    ];
    assert_eq!(
        RevocationSection::parse(&data),
        Err(RevocationSectionError::MissingPreviousNull),
    );

    let data = [
        // Version.
        0, 0, 0, 0,
        // Previous offset.
        8, 0, 0, 0,
        // Latest offset.
        9, 0, 0, 0,
        // Previous data.
        0,
        // Latest data.
        1,
    ];
    assert_eq!(
        RevocationSection::parse(&data),
        Err(RevocationSectionError::MissingLatestNull),
    );
}

fn section(previous_offset: u32, latest_offset: u32, payload: &[u8]) -> Vec<u8> {
    let mut data = vec![0, 0, 0, 0];
    data.extend_from_slice(&previous_offset.to_le_bytes());
    data.extend_from_slice(&latest_offset.to_le_bytes());
    data.extend_from_slice(payload);
    data
}

#[test]
fn section_round_trip() {
    let data = section(8, 15, b"sbat,1\0sbat,2\0");
    let parsed = RevocationSection::parse(&data).unwrap();
    assert_eq!(parsed.previous(), b"sbat,1");
    assert_eq!(parsed.latest(), b"sbat,2");
    assert!(RevocationSbat::parse(parsed.previous()).is_ok());
    assert!(RevocationSbat::parse(parsed.latest()).is_ok());
}

#[test]
fn section_payloads_may_overlap() {
    // Both offsets may name the same bytes, or the tail of the other.
    let data = section(8, 8, b"sbat,1\0");
    let parsed = RevocationSection::parse(&data).unwrap();
    assert_eq!(parsed.previous(), b"sbat,1");
    assert_eq!(parsed.latest(), b"sbat,1");

    let data = section(8, 9, b"sbat,1\0");
    let parsed = RevocationSection::parse(&data).unwrap();
    assert_eq!(parsed.previous(), b"sbat,1");
    assert_eq!(parsed.latest(), b"bat,1");
}

#[test]
fn section_trailing_bytes_are_ignored() {
    let data = section(8, 15, b"sbat,1\0sbat,2\0");
    let mut longer = data.clone();
    longer.push(123);
    longer.extend_from_slice(b"more\0");
    assert_eq!(
        RevocationSection::parse(&data).unwrap(),
        RevocationSection::parse(&longer).unwrap()
    );
}

#[test]
fn section_offsets_count_from_the_end_of_the_version() {
    // Offset 0 is the first byte of the header itself.
    let data = section(0, 4, b"");
    // The header bytes are 0,0,0,0,4,0,0,0: previous is empty, latest
    // is the byte 4 up to the null that follows it.
    let parsed = RevocationSection::parse(&data).unwrap();
    assert_eq!(parsed.previous(), b"");
    assert_eq!(parsed.latest(), &[4]);
}

#[test]
fn section_offsets_are_little_endian() {
    let mut payload = vec![1u8; 0x0102 - 8];
    payload.extend_from_slice(b"x\0");
    let data = section(0x0102, 0x0103, &payload);
    let parsed = RevocationSection::parse(&data).unwrap();
    assert_eq!(parsed.previous(), b"x");
    assert_eq!(parsed.latest(), b"");

    assert_eq!(
        RevocationSection::parse(&[0, 1, 0, 0]),
        Err(RevocationSectionError::InvalidVersion(0x100))
    );
    assert_eq!(
        RevocationSection::parse(&[0, 0, 0, 0x80, 9, 9]),
        Err(RevocationSectionError::InvalidVersion(0x8000_0000))
    );
    assert_eq!(
        RevocationSection::parse(&section(0xffff_ffff, 8, b"\0")),
        Err(RevocationSectionError::InvalidPreviousOffset(0xffff_ffff))
    );
}

#[test]
fn section_empty_input() {
    assert_eq!(
        RevocationSection::parse(&[]),
        Err(RevocationSectionError::MissingVersion)
    );
    assert_eq!(
        RevocationSection::parse(&[0, 0, 0, 0]),
        Err(RevocationSectionError::MissingHeader)
    );
}

#[test]
fn section_binary_round_trip() {
    let data = section(8, 9, b"sbat,1\0sbat,1\0");
    let parsed = RevocationSection::parse(&data).unwrap();
    assert_eq!(parsed.previous(), &data[12..18]);
    assert_eq!(parsed.previous(), b"sbat,1");
    assert_eq!(parsed.latest(), &data[13..18]);
    assert_eq!(parsed.latest(), b"bat,1");
}

#[test]
fn section_with_two_revocation_lists() {
    let previous = b"sbat,1,2022052400\ngrub,2\n";
    let latest = b"sbat,1,2023012900\nshim,2\ngrub,3\ngrub.debian,4\n";
    let mut payload = previous.to_vec();
    payload.push(0);
    payload.extend_from_slice(latest);
    payload.push(0);
    let data = section(8, 8 + previous.len() as u32 + 1, &payload);
    let sbat_level_section = RevocationSection::parse(&data).unwrap();
    assert_eq!(sbat_level_section.previous(), previous);
    assert_eq!(sbat_level_section.latest(), latest);

    // Check that the revocation data parses.
    let previous = RevocationSbat::parse(sbat_level_section.previous()).unwrap();
    let latest = RevocationSbat::parse(sbat_level_section.latest()).unwrap();
    assert_eq!(previous.date(), Some(&b"2022052400"[..]));
    assert_eq!(latest.date(), Some(&b"2023012900"[..]));
    assert_eq!(latest.revoked_components().collect().len(), 4);

    // Check equality despite extra trailing data.
    let mut data = data.to_vec();
    data.push(123);
    let sbat_level_section2 = RevocationSection::parse(&data).unwrap();
    assert_eq!(sbat_level_section, sbat_level_section2);
}
