pub mod text;
pub mod html;
