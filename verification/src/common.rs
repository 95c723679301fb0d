//! Shared helpers of the command pipeline: fenced-code extraction,
//! reference-identifier resolution, and output shortening.

pub mod extract_code;
pub mod hex;
pub mod limit_content;
pub mod split_content;

pub use extract_code::extract_code;
pub use hex::extract_32byte_hex;
pub use limit_content::limit_string;
pub use split_content::split_content;
