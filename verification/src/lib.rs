//! The low-level parsing engine of a PDF document processor: a byte cursor
//! with guaranteed rollback on failed parse attempts, the object grammar
//! protocol built on it (with its content-stream mode distinction),
//! cycle-safe resolution of indirect references, and the DCT (JPEG) stream
//! filter with its colorspace inference and fallback retry.

pub mod chain;
pub mod dct;
pub mod object;
pub mod reader;
pub mod resolve;
pub mod trivia;
pub mod xref;
