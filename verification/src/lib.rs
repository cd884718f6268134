//! A minimal DNS message codec: wire-format encoding and decoding of
//! headers, domain names, questions and resource records, together with
//! the split/merge pipeline that fans a multi-question query out into
//! single-question sub-queries and reassembles their answers.

pub mod error;
pub mod field;
pub mod header;
pub mod name;
pub mod question;
pub mod packet;
pub mod resource_records;
