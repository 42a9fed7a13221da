pub mod stats;
pub mod histogram;
pub mod text;
pub mod http_method;
pub mod cli;
pub mod worker;
pub mod units;
pub mod header;
pub mod calls;
