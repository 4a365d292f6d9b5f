//! Codecs for the binary containers of a PlayStation-era 3D platform game:
//! the archive directory, the cascading-offset collision container, the
//! composite level container and the bit-packed triangle records.
//!
//! Every function works on bytes held in memory and is proved against a
//! mathematical description of the format.

pub mod artifact;
pub mod clock;
pub mod collision;
pub mod collision_laws;
pub mod cursor;
pub mod decimal;
pub mod encode;
pub mod error;
pub mod level;
pub mod scan;
pub mod sub_region_laws;
pub mod sub_table;
pub mod triangles;
pub mod wad;
pub mod wad_laws;
