pub mod sentence;
pub mod text;
pub mod wordmap;
