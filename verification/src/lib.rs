//! Character mapping for IDNA compatibility processing (UTS #46) and the
//! joining-type classification that contextual joiner rules consult.
//!
//! The mapping data is a value of [`table::MappingTable`], checked once when
//! it is built; [`mapper::Mapper`] rewrites a sequence of codepoints against
//! it, one output character per step.

pub mod joining;
pub mod table;
pub mod mapper;
