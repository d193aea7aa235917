pub mod element;
pub mod page_code;
pub mod rongta;
pub mod plan;
pub mod kept_text;
