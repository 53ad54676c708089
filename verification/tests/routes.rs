use base64::Engine;
use browserless_html_to_pdf::error::AppError;
use browserless_html_to_pdf::models::dto::{ImageFormat, PageOptions, PdfRequest};
use browserless_html_to_pdf::routes::images::{
    decode_pdf_base64, format_from_field, image_storage_key, inline_image_item, is_multipart,
    multer_boundary, require_file, select_pages, url_image_item,
};
use browserless_html_to_pdf::routes::pdf::{
    check_html_size, inline_pdf_response, pdf_filename, pdf_storage_key, url_pdf_response,
};
use browserless_html_to_pdf::services::html_to_pdf::{
    html_to_pdf, page_size_for, PageFormat, PageLayout, PdfBuildOptions,
};
use browserless_html_to_pdf::services::pdf_to_image::RenderedImage;

fn request(filename: Option<&str>) -> PdfRequest {
    PdfRequest {
        html: "<h1>x</h1>".into(),
        page: PageOptions::default(),
        header: None,
        footer: None,
        filename: filename.map(|s| s.to_string()),
    }
}

#[test]
fn enforces_max_html_size_limit() {
    match check_html_size(64, 16) {
        Err(AppError::PayloadTooLarge { max, actual }) => {
            assert_eq!(max, 16);
            assert_eq!(actual, 64);
        }
        other => panic!("unexpected {other:?}"),
    }
    assert!(check_html_size(16, 16).is_ok());
}

#[test]
fn pdf_filename_defaults_and_sanitizes() {
    assert_eq!(pdf_filename(&request(None)), "document.pdf");
    assert_eq!(
        pdf_filename(&request(Some("My Report (final).pdf"))),
        "My_Report__final_.pdf"
    );
}

#[test]
fn storage_keys() {
    assert_eq!(pdf_storage_key("abc", "r.pdf"), "pdfs/abc/r.pdf");
    assert_eq!(image_storage_key("f", 12, ImageFormat::Jpeg), "images/f/page-12.jpeg");
    assert_eq!(image_storage_key("f", 0, ImageFormat::Png), "images/f/page-0.png");
}

#[test]
fn inline_pdf_is_base64() {
    let r = inline_pdf_response("a.pdf".into(), b"%PDF-1.4 data");
    assert_eq!(r.filename, "a.pdf");
    assert_eq!(r.pdf, "JVBERi0xLjQgZGF0YQ==");
    let u = url_pdf_response("a.pdf".into(), "http://x".into());
    assert_eq!((u.filename.as_str(), u.download_url.as_str()), ("a.pdf", "http://x"));
}

#[test]
fn base64_pdf_decodes_or_is_a_validation_error() {
    assert_eq!(decode_pdf_base64("AA==").unwrap(), vec![0u8]);
    assert_eq!(decode_pdf_base64("JVBERg==").unwrap(), b"%PDF".to_vec());
    match decode_pdf_base64("not base64!") {
        Err(AppError::Validation(m)) => assert!(m.starts_with("invalid base64: ")),
        other => panic!("unexpected {other:?}"),
    }
}

#[test]
fn image_items() {
    let img = RenderedImage { page: 3, width: 10, height: 20, bytes: vec![1, 2, 3] };
    let item = inline_image_item(&img, ImageFormat::Png);
    assert_eq!((item.page, item.width, item.height), (3, 10, 20));
    assert_eq!(item.data.as_deref(), Some("AQID"));
    assert!(item.download_url.is_none());
    let item = url_image_item(&img, ImageFormat::Jpeg, "u".into());
    assert_eq!(item.format, ImageFormat::Jpeg);
    assert!(item.data.is_none());
    assert_eq!(item.download_url.as_deref(), Some("u"));
}

#[test]
fn selection_caps_automatic_pages() {
    assert_eq!(select_pages("", 5, 3).unwrap(), vec![1, 2, 3]);
    assert_eq!(select_pages("", 2, 3).unwrap(), vec![1, 2]);
    assert_eq!(select_pages("1,3", 3, 10).unwrap(), vec![1, 3]);
    assert_eq!(select_pages("2,2,1", 3, 10).unwrap(), vec![2, 1]);
    assert_eq!(
        select_pages("1-4", 4, 3).unwrap_err(),
        "too many pages requested: 4 (max 3)"
    );
    assert_eq!(select_pages("7", 4, 3).unwrap_err(), "page 7 out of range 1..=4");
}

#[test]
fn multipart_helpers() {
    assert!(is_multipart("multipart/form-data; boundary=x"));
    assert!(!is_multipart("application/json"));
    assert_eq!(
        multer_boundary("multipart/form-data; boundary=test-boundary").as_deref(),
        Some("test-boundary")
    );
    assert_eq!(
        multer_boundary("multipart/form-data; charset=x; boundary=\"q\"").as_deref(),
        Some("q")
    );
    assert_eq!(multer_boundary("multipart/form-data"), None);
    assert_eq!(format_from_field("JPEG"), ImageFormat::Jpeg);
    assert_eq!(format_from_field("jpg"), ImageFormat::Png);
    assert_eq!(require_file(Some(vec![1])).unwrap(), vec![1]);
    match require_file(None) {
        Err(AppError::Validation(m)) => assert_eq!(m, "multipart `file` part required"),
        other => panic!("unexpected {other:?}"),
    }
}

#[test]
fn unknown_format_is_error() {
    let opts = PdfBuildOptions {
        page: PageOptions {
            format: Some("Tabloid-XL".into()),
            landscape: false,
            margin: None,
        },
        header: None,
        footer: None,
    };
    assert!(opts.page_layout().is_err());
    assert_eq!(
        page_size_for("Tabloid-XL").unwrap_err(),
        "unsupported page format 'tabloid-xl'"
    );
}

#[test]
fn page_layouts() {
    assert_eq!(page_size_for("LeTTer"), Ok(PageFormat::Letter));
    let landscape = PdfBuildOptions {
        page: PageOptions { format: None, landscape: true, margin: None },
        header: None,
        footer: None,
    };
    assert_eq!(
        landscape.page_layout(),
        Ok(Some(PageLayout { format: PageFormat::A4, landscape: true }))
    );
    let plain = PdfBuildOptions { page: PageOptions::default(), header: None, footer: None };
    assert_eq!(plain.page_layout(), Ok(None));
}

#[test]
fn default_conversion_makes_a_pdf() {
    let pdf = html_to_pdf("<h1>hello</h1>").expect("render");
    assert!(pdf.starts_with(b"%PDF-"));
    let roundtrip = base64::engine::general_purpose::STANDARD
        .decode(inline_pdf_response("x".into(), &pdf).pdf)
        .unwrap();
    assert_eq!(roundtrip, pdf);
}
