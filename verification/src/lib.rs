//! Zero-copy parsing of verified-boot metadata descriptors.
//!
//! A descriptor is a fixed-size big-endian header followed by a body that the
//! header's length fields divide into NUL-terminated segments. The bytes are
//! untrusted: every function here is total, returning a [`DescriptorError`]
//! for input it cannot interpret.

pub mod error;
pub mod property;
pub mod util;

pub use error::DescriptorError;
pub use property::PropertyDescriptor;
