//! Pronoun sets and the templates that are rendered with them.
//!
//! The library has two parts. The parser in [`parser`] turns a text such
//! as `xe/xem/xyr` into a [`pronouns::PronounSet`]. The engine in
//! [`engine`] finds the placeholders of a template, whose grammar is in
//! [`grammar`], and puts names and pronoun forms in their place.
//! [`sentences`] sets three sample sentences under headings and renders
//! them.
//!
//! Texts are sequences of characters; [`text`] holds what is done with
//! them, [`case`] the change of case, and [`random`] the random choices.

pub mod case;
pub mod engine;
pub mod grammar;
pub mod parser;
pub mod pronouns;
pub mod random;
pub mod sentences;
pub mod text;
