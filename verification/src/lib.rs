//! Finding device information that apps leak over HTTP/2 and HTTP/3, from
//! recorded flows and the cipher calls that the app made.
pub mod analysis;
pub mod convert;
pub mod data;
pub mod db;
pub mod events;
pub mod external;
pub mod extract;
pub mod flow_laws;
pub mod forms;
pub mod http_meta;
pub mod laws;
pub mod leak;
pub mod report;
pub mod report_text;
pub mod results;
pub mod session;
pub mod strset;
pub mod text;

pub use http_meta::{headers_to_hashmap, version_to_string};
pub use report::RequestInCSV;
