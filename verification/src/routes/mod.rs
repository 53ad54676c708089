pub mod downloads;
pub mod images;
pub mod pdf;
