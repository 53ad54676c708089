use browserless_html_to_pdf::models::dto::ImageFormat;
use browserless_html_to_pdf::routes::images::pages_to_render;
use browserless_html_to_pdf::services::html_to_pdf::html_to_pdf;
use browserless_html_to_pdf::services::pdf_to_image::{finish_page, page_slot, pdf_page_count};

fn png_bytes(w: u32, h: u32) -> Vec<u8> {
    let img = image::RgbImage::from_pixel(w, h, image::Rgb([200, 10, 10]));
    let mut buf = std::io::Cursor::new(Vec::new());
    image::DynamicImage::ImageRgb8(img)
        .write_to(&mut buf, image::ImageFormat::Png)
        .unwrap();
    buf.into_inner()
}

fn multipage_pdf(n: usize) -> Vec<u8> {
    let mut body = String::new();
    for i in 1..=n {
        body.push_str(&format!(
            r#"<div style="page-break-after: always;">Page {i}</div>"#
        ));
    }
    html_to_pdf(&format!("<html><body>{body}</body></html>")).unwrap()
}

#[test]
fn counts_pages_of_a_pdf() {
    let pdf = html_to_pdf("<h1>page one</h1>").unwrap();
    assert_eq!(pdf_page_count(&pdf).unwrap(), 1);
    let err = pdf_page_count(b"not a pdf").unwrap_err();
    assert!(err.starts_with("failed to parse PDF: "));
}

#[test]
fn png_pages_keep_their_bytes() {
    let png = png_bytes(7, 5);
    let img = finish_page(2, png.clone(), ImageFormat::Png).unwrap();
    assert_eq!((img.page, img.width, img.height), (2, 7, 5));
    assert_eq!(img.bytes, png);
    assert!(img.bytes.starts_with(&[0x89, b'P', b'N', b'G']));
}

#[test]
fn jpeg_pages_are_reencoded() {
    let img = finish_page(1, png_bytes(8, 4), ImageFormat::Jpeg).unwrap();
    assert_eq!((img.width, img.height), (8, 4));
    assert_eq!(&img.bytes[0..2], &[0xFF, 0xD8]);
}

#[test]
fn undecodable_page_is_an_error() {
    let e = finish_page(1, b"junk".to_vec(), ImageFormat::Png).unwrap_err();
    assert!(e.starts_with("decode png: "));
    let e = finish_page(1, b"junk".to_vec(), ImageFormat::Jpeg).unwrap_err();
    assert!(e.starts_with("decode png: "));
}

#[test]
fn pages_to_render_from_a_document() {
    let pdf = multipage_pdf(5);
    let total = pdf_page_count(&pdf).unwrap();
    assert!(total >= 5);
    assert_eq!(pages_to_render(&pdf, "", 3).unwrap(), vec![1, 2, 3]);
    assert_eq!(pages_to_render(&pdf, "2,2,1", 3).unwrap(), vec![2, 1]);
    assert!(pages_to_render(&pdf, "1-4", 3).is_err());
    assert!(pages_to_render(b"nope", "", 3).is_err());
}

#[test]
fn page_slot_maps_page_numbers_to_indices() {
    assert_eq!(page_slot(1, 3), Ok(0));
    assert_eq!(page_slot(3, 3), Ok(2));
    assert_eq!(page_slot(0, 3), Err("page 0 out of range 1..=3".to_string()));
    assert_eq!(page_slot(4, 3), Err("page 4 out of range 1..=3".to_string()));
    assert_eq!(page_slot(1, 0), Err("page 1 out of range 1..=0".to_string()));
}
