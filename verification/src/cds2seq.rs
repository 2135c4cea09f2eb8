//! The sequence transducer: turns a loop-marked CDS or MSQ event stream into
//! a flat SEQ stream.

pub mod assemble;
pub mod convert;
pub mod dictionary;
pub mod error;
pub mod header;
pub mod laws;
pub mod lexeme;
pub mod outline;
pub mod report;
pub mod token;
pub mod unroll;
