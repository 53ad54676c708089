pub mod codec;
pub mod html_to_pdf;
pub mod pdf_to_image;
pub mod storage;
