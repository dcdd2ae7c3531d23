pub mod decode;
pub mod doc;
pub mod error;
pub mod identity;
pub mod service;
pub mod store;
pub mod tasks;
pub mod value;
