pub mod chars;
pub mod json;
pub mod decode;
pub mod encode;
pub mod render;
pub mod text;
pub mod tree;
pub mod jsontext;
