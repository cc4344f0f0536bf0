//! Reader and writer for a two-file binary asset container: a header file
//! with a summary and the name, import and export tables, and a body file
//! with one property bag per export.
//!
//! Reading and writing are specified against each other: every section
//! has a function that says what its bytes hold (`parse_..`) and one that
//! says what it is written as (`enc_..`), and the functions of the library
//! are proved to compute them. [`asset::round_trip`] proves that what is
//! written reads back.
//!
//! - [`reader`]: a byte source with a stack of soft limits
//! - [`util`]: little-endian numbers and length-prefixed strings
//! - [`asset`]: the sections of the header file, the property codec, the
//!   offsets of the summary, and the asset as a whole
//! - [`bindings`]: imports, exports and properties by name
//! - [`error`]: what can go wrong, and the parts of an asset in which it did

pub mod asset;
pub mod bindings;
pub mod error;
pub mod reader;
pub mod util;
