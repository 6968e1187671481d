use sbat::table::{
    image_sbat_to_table_string, image_table_rows, sbat_level_section_to_table_string,
    sbat_level_table_rows, text_cell,
};
use sbat::{ImageSbat, ImageSbatOwned, RevocationSbat, RevocationSbatOwned};

#[test]
fn test_image_sbat_to_table_string() {
    let image_sbat =
        ImageSbat::parse(b"pizza,2,SomeCorp,pizza,1.2.3,https://example.com/somecorp").unwrap();
    let expected = "
+-----------+-----+----------+---------+---------+------------------------------+
| component | gen | vendor   | package | version | url                          |
+-----------+-----+----------+---------+---------+------------------------------+
| pizza     | 2   | SomeCorp | pizza   | 1.2.3   | https://example.com/somecorp |
+-----------+-----+----------+---------+---------+------------------------------+";
    assert_eq!(image_sbat_to_table_string(&image_sbat), expected.trim());
}

#[test]
fn test_sbat_level_section_to_table_string() {
    let previous = RevocationSbat::parse(b"sbat,1").unwrap();
    let latest = RevocationSbat::parse(b"sbat,1\nshim,2").unwrap();
    let expected = "
+---------------+--------------+-------------+------------+
| previous name | previous gen | latest name | latest gen |
+---------------+--------------+-------------+------------+
| sbat          | 1            | sbat        | 1          |
+---------------+--------------+-------------+------------+
|               |              | shim        | 2          |
+---------------+--------------+-------------+------------+";
    assert_eq!(
        sbat_level_section_to_table_string(&previous, &latest),
        expected.trim()
    );
}

#[test]
fn image_rows() {
    let image = ImageSbatOwned::parse(b"a,07,v\nb,12,,,,u").unwrap();
    assert_eq!(
        image_table_rows(image.entries()),
        [
            ["component", "gen", "vendor", "package", "version", "url"],
            ["a", "7", "v", "", "", ""],
            ["b", "12", "", "", "", "u"],
        ]
    );
    assert_eq!(
        image_table_rows(&[]),
        [["component", "gen", "vendor", "package", "version", "url"]]
    );
}

#[test]
fn level_rows_pad_the_shorter_list() {
    let longer = RevocationSbatOwned::parse(b"sbat,1,2024\nshim,2\ngrub,3").unwrap();
    let shorter = RevocationSbatOwned::parse(b"sbat,1").unwrap();
    let header = ["previous name", "previous gen", "latest name", "latest gen"];
    assert_eq!(
        sbat_level_table_rows(longer.revoked_components(), shorter.revoked_components()),
        [
            header,
            ["sbat", "1", "sbat", "1"],
            ["shim", "2", "", ""],
            ["grub", "3", "", ""],
        ]
    );
    assert_eq!(
        sbat_level_table_rows(shorter.revoked_components(), longer.revoked_components()),
        [
            header,
            ["sbat", "1", "sbat", "1"],
            ["", "", "shim", "2"],
            ["", "", "grub", "3"],
        ]
    );
    assert_eq!(sbat_level_table_rows(&[], &[]), [header]);
}

#[test]
fn table_is_drawn_from_the_rows() {
    // Two images with different entries give different tables.
    let one = ImageSbat::parse(b"a,1").unwrap();
    let two = ImageSbat::parse(b"a,2").unwrap();
    let table_one = image_sbat_to_table_string(&one);
    assert!(table_one.contains("| a "));
    assert!(table_one.contains("| 1 "));
    assert_ne!(table_one, image_sbat_to_table_string(&two));
}

#[test]
fn ascii_cells_read_as_their_bytes() {
    assert_eq!(text_cell(b"pizza"), "pizza");
    assert_eq!(text_cell(b""), "");
    assert_eq!(text_cell(b"https://example.com/a b"), "https://example.com/a b");
    let all: Vec<u8> = (0x20..0x7f).collect();
    assert_eq!(text_cell(&all).as_bytes(), &all[..]);
}
