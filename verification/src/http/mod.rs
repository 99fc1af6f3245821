pub mod header;
pub mod http;
pub mod multipart;
pub mod request;
pub mod response;
pub mod value;
