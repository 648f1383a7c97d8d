//! An ISO9660 (Level 1 subset) image codec: block allocation, the primary
//! volume descriptor, directory records, an image builder over an in-memory
//! source tree, and a reader that lists the hierarchy of an image.
//!
//! Multi-byte fields are stored in little-endian order only, without the
//! big-endian copies that the full standard also asks for: images are laid out
//! for this codec to read back, not for other tools.

pub mod allocator;
pub mod builder;
pub mod error;
pub mod layout;
pub mod placement;
pub mod progress;
pub mod reader;
pub mod record;
pub mod tree;
pub mod volume;
