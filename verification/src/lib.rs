//! Verified percent-encoding (RFC 3986) over byte sequences: a strict text
//! decode path, a permissive binary decode path, and a model of the
//! nullable-pointer boundary layer that a C caller sees.

pub mod boundary;
pub mod codec;
pub mod laws;
pub mod text;
pub mod utf8;
