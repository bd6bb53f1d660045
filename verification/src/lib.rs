//! A random-access archive on top of the tape archive format: header codecs
//! for the V7, USTAR, PAX and GNU flavours, and a paged index of the members.

pub mod error;
pub mod header;
pub mod index;
pub mod member;
pub mod ordered;
pub mod stream;
pub mod tar;
