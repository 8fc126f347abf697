//! Core logic of a comic-archive curation tool: year-independent date
//! ranges, the on-disk layout of a collection, selection of source comics
//! and posts, and the checks and plans of the post lifecycle.

pub mod date;
pub mod location;
pub mod post;
pub mod random;
pub mod range;
pub mod select;
pub mod text;

pub use date::Date;
pub use location::DirProbe;
pub use location::Location;
pub use location::LocationError;
pub use range::DateRange;
pub use range::MonthDay;
pub use range::RangeError;
pub use select::PostInfo;
pub use select::ShowInput;
