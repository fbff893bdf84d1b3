//! Resolution of shared Douyin links into ranked, watermark-free media
//! addresses: the text transformations and the decisions of the resolution
//! flow, with their contracts.

pub mod address;
pub mod error;
pub mod extract;
pub mod link;
pub mod pattern;
pub mod quality;
pub mod resolve;
pub mod select;
pub mod text;
pub mod unicode;
pub mod watermark;
