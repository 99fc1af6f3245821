pub mod http;
pub mod server;
pub mod util;
pub mod worker;
