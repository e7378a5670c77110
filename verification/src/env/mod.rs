//! An older form of the annotation mini-language, kept alongside the
//! current one: the same grammar without the pound marker, and a parser
//! that degrades every failure to "no hint".

pub mod typehint_parser;
