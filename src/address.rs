//! Address value types and their text forms.

pub mod text;

pub mod ipv4;
pub mod ipv6;
pub mod mac;
