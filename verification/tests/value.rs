use aush::value::format_filesize;

#[test]
fn test_filesize_formatting() {
    assert_eq!(format_filesize(0), "0 B");
    assert_eq!(format_filesize(500), "500 B");
    assert_eq!(format_filesize(1024), "1.00 KB");
    assert_eq!(format_filesize(1536), "1.50 KB");
    assert_eq!(format_filesize(1048576), "1.00 MB");
    assert_eq!(format_filesize(1073741824), "1.00 GB");
}

#[test]
fn filesize_matches_float_formatting() {
    let samples: [u64; 14] = [
        1152,
        1408,
        1,
        1023,
        1025,
        1029,
        2047,
        123456789,
        999999999999,
        1099511627776,
        1125899906842624,
        9007199254740993,
        u64::MAX,
        u64::MAX - 12345,
    ];
    for &b in samples.iter() {
        let units = ["B", "KB", "MB", "GB", "TB", "PB"];
        let mut size = b as f64;
        let mut i = 0;
        while size >= 1024.0 && i < units.len() - 1 {
            size /= 1024.0;
            i += 1;
        }
        let expected = if i == 0 {
            format!("{} {}", b, units[0])
        } else {
            format!("{:.2} {}", size, units[i])
        };
        assert_eq!(format_filesize(b), expected, "bytes = {}", b);
    }
}
