use browserless_html_to_pdf::models::dto::{
    default_format, parse_pages, sanitize_filename, split_css_length, CssUnit, ImageFormat,
    PageOptions,
};

#[test]
fn pages_spec_parses_ranges() {
    assert_eq!(parse_pages("1-3,5", 10).unwrap(), vec![1, 2, 3, 5]);
    assert_eq!(parse_pages("", 4).unwrap(), vec![1, 2, 3, 4]);
    assert!(parse_pages("9-12", 5).is_err());
}

#[test]
fn pages_dedup_preserves_request_order() {
    assert_eq!(parse_pages("2,2,1", 10).unwrap(), vec![2, 1]);
}

#[test]
fn filename_is_sanitized() {
    assert_eq!(
        sanitize_filename("My Report (final).pdf"),
        "My_Report__final_.pdf"
    );
    assert_eq!(sanitize_filename(""), "document.pdf");
}

#[test]
fn pages_errors_have_their_messages() {
    assert_eq!(parse_pages("9-12", 5).unwrap_err(), "page 9 out of range 1..=5");
    assert_eq!(parse_pages("0", 5).unwrap_err(), "page 0 out of range 1..=5");
    assert_eq!(parse_pages("3-1", 5).unwrap_err(), "invalid range '3-1'");
    assert_eq!(parse_pages("1, x ", 5).unwrap_err(), "invalid page 'x'");
    assert_eq!(parse_pages("1- x", 5).unwrap_err(), "invalid page ' x'");
    assert_eq!(parse_pages("-2", 5).unwrap_err(), "invalid page ''");
    // A parse error further on wins over an out-of-range page before it.
    assert_eq!(parse_pages("9,abc", 5).unwrap_err(), "invalid page 'abc'");
}

#[test]
fn pages_tolerate_blanks_and_spaces() {
    assert_eq!(parse_pages(" 3 , ,1 - 2,", 5).unwrap(), vec![3, 1, 2]);
    assert_eq!(parse_pages("   ", 2).unwrap(), vec![1, 2]);
    assert_eq!(parse_pages("+2", 5).unwrap(), vec![2]);
    assert_eq!(parse_pages("", 0).unwrap(), Vec::<usize>::new());
    assert_eq!(parse_pages("\u{a0}4\u{3000}", 5).unwrap(), vec![4]);
}

#[test]
fn filename_keeps_length_and_safe_characters() {
    assert_eq!(sanitize_filename("  "), "document.pdf");
    assert_eq!(sanitize_filename("a/b\\c.pdf"), "a_b_c.pdf");
    assert_eq!(sanitize_filename("é.pdf"), "_.pdf");
    assert_eq!(sanitize_filename(" x "), "_x_");
    let once = sanitize_filename("Q3 report?.pdf");
    assert_eq!(sanitize_filename(&once), once);
}

#[test]
fn image_format_extensions() {
    assert_eq!(ImageFormat::Png.ext(), "png");
    assert_eq!(ImageFormat::Jpeg.ext(), "jpeg");
    assert_eq!(default_format(), ImageFormat::Png);
}

#[test]
fn page_options_default() {
    let p = PageOptions::default();
    assert!(p.format.is_none() && !p.landscape && p.margin.is_none());
}

#[test]
fn css_length_splits_number_and_unit() {
    assert_eq!(
        split_css_length(" 2.54cm ").unwrap(),
        ("2.54".to_string(), "cm".to_string())
    );
    assert_eq!(
        split_css_length("1 in").unwrap(),
        ("1".to_string(), "in".to_string())
    );
    assert_eq!(
        split_css_length("12").unwrap_err(),
        "missing unit in length '12'"
    );
    assert_eq!(CssUnit::parse("mm"), Ok(CssUnit::Mm));
    assert_eq!(CssUnit::parse("px"), Ok(CssUnit::Px));
    assert_eq!(CssUnit::parse("PT").unwrap_err(), "unsupported unit 'PT'");
    let (_, unit) = split_css_length("nonsense").unwrap();
    assert!(CssUnit::parse(&unit).is_err());
}
