//! A verified interpreter for a small turtle-graphics language in the Logo
//! family.
//!
//! The pipeline is: source text -> tokens ([`lexer`]) -> command tree
//! ([`parser`], [`expr_parser`]) -> evaluation against a mutable turtle
//! ([`evaluator`], [`turtle`]).  Numbers are exact rationals ([`rat`]); the
//! turtle's trigonometry is a fixed-point approximation ([`trig`]) that is
//! exact at multiples of ninety degrees.  An unparser ([`unparse`],
//! [`render`]) comes with the proof that splitting and parsing a reprinted
//! program gives the same tree back.
//!
//! The crate itself does no input or output: a front end feeds it program
//! text and writes the drawing buffer out as SVG.

pub mod evaluator;
pub mod expr_parser;
pub mod lexer;
pub mod parser;
pub mod rat;
pub mod render;
pub mod trig;
pub mod turtle;
pub mod unparse;

pub use rat::Rat;
