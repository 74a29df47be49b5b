pub mod bytes;
pub mod codec;
pub mod date;
pub mod expense;
pub mod num;
pub mod store;
pub mod summary;
