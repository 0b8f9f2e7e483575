use grpc_files::entries::FileEntry;
use grpc_files::fmt::{
    display_name, filename_column_width, format_bytes, format_file_info, format_timestamp,
    pad_left, u64_to_dec,
};
use grpc_files::time::civil_from_days;

#[test]
fn decimal_rendering() {
    assert_eq!(u64_to_dec(0), b"0".to_vec());
    assert_eq!(u64_to_dec(7), b"7".to_vec());
    assert_eq!(u64_to_dec(12345), b"12345".to_vec());
    assert_eq!(u64_to_dec(u64::MAX), b"18446744073709551615".to_vec());
}

#[test]
fn bytes_below_one_kibibyte_are_exact() {
    assert_eq!(format_bytes(0), "0 B");
    assert_eq!(format_bytes(512), "512 B");
    assert_eq!(format_bytes(1023), "1023 B");
}

#[test]
fn bytes_scaled_with_one_decimal() {
    assert_eq!(format_bytes(1024), "1.0 KB");
    assert_eq!(format_bytes(1536), "1.5 KB");
    assert_eq!(format_bytes(1024 * 1024), "1.0 MB");
    assert_eq!(format_bytes(5 * 1024 * 1024 / 2), "2.5 MB");
    assert_eq!(format_bytes(1024 * 1024 * 1024), "1.0 GB");
    assert_eq!(format_bytes(1024u64 * 1024 * 1024 * 1024), "1.0 TB");
    assert_eq!(format_bytes(3 * 1024u64 * 1024 * 1024 * 1024 / 2), "1.5 TB");
}

#[test]
fn civil_dates_from_days() {
    assert_eq!(civil_from_days(0), (1970, 1, 1));
    assert_eq!(civil_from_days(31), (1970, 2, 1));
    assert_eq!(civil_from_days(365), (1971, 1, 1));
    // the leap day of a century year divisible by 400
    assert_eq!(civil_from_days(11016), (2000, 2, 29));
    assert_eq!(civil_from_days(11017), (2000, 3, 1));
}

#[test]
fn timestamps_render_calendar_and_clock() {
    assert_eq!(format_timestamp(0), b"1970-01-01 00:00:00".to_vec());
    assert_eq!(format_timestamp(1000000000), b"2001-09-09 01:46:40".to_vec());
    assert_eq!(format_timestamp(2147483647), b"2038-01-19 03:14:07".to_vec());
    assert_eq!(format_timestamp(951782400), b"2000-02-29 00:00:00".to_vec());
}

#[test]
fn file_info_row() {
    let entry = FileEntry {
        name: b"report.pdf".to_vec(),
        path: b"docs/report.pdf".to_vec(),
        size: 1536,
        is_directory: false,
        modified_at: 1000000000,
    };
    let (name, size, stamp) = format_file_info(&entry);
    assert_eq!(name, "report.pdf");
    assert_eq!(size, "1.5 KB");
    assert_eq!(stamp, "2001-09-09 01:46:40");
}

#[test]
fn filename_column_widths() {
    assert_eq!(filename_column_width(100), 63);
    assert_eq!(filename_column_width(47), 10);
    assert_eq!(filename_column_width(40), 10);
    assert_eq!(filename_column_width(0), 10);
}

#[test]
fn display_name_pads_and_ellipsizes() {
    assert_eq!(display_name(b"short", 8), b"short   ".to_vec());
    assert_eq!(display_name(b"exactly8", 8), b"exactly8".to_vec());
    assert_eq!(display_name(b"much_too_long", 8), b"much_...".to_vec());
}

#[test]
fn pad_left_right_aligns() {
    assert_eq!(pad_left(b"42", 5), b"   42".to_vec());
    assert_eq!(pad_left(b"12345", 5), b"12345".to_vec());
    assert_eq!(pad_left(b"123456", 5), b"123456".to_vec());
}
