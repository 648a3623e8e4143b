use chainsaw::table::{column_widths, decimal_width, HEADER_WIDTHS};

fn row(id: u32, name: &str, pci: &str, render: &str) -> (u32, String, String, String, bool, bool) {
    (id, name.to_string(), pci.to_string(), render.to_string(), false, false)
}

#[test]
fn widths_of_no_rows_are_the_headers() {
    assert_eq!(column_widths(&[]), HEADER_WIDTHS);
    assert_eq!(HEADER_WIDTHS, [2, 4, 3, 6]);
}

#[test]
fn widths_follow_the_widest_cell() {
    let rows = vec![
        row(1, "Intel UHD", "0000:00:02.0", "/dev/dri/renderD128"),
        row(12345, "AMD", "0000:01:00.0", ""),
    ];
    assert_eq!(column_widths(&rows), [5, 9, 12, 19]);
}

#[test]
fn text_width_counts_bytes() {
    let rows = vec![row(7, "Ünïcode", "x", "y")];
    assert_eq!(column_widths(&rows), [2, 9, 3, 6]);
}

#[test]
fn decimal_widths() {
    assert_eq!(decimal_width(0), 1);
    assert_eq!(decimal_width(9), 1);
    assert_eq!(decimal_width(10), 2);
    assert_eq!(decimal_width(999_999), 6);
    assert_eq!(decimal_width(1_000_000_000), 10);
    assert_eq!(decimal_width(u32::MAX), 10);
}
