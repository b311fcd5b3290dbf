//! A minimal document-rendering front end: a character scanner, a stylesheet
//! parser, a markup parser that harvests embedded stylesheets, a style
//! resolver that cascades declarations onto a styled tree, and a layout-tree
//! builder that partitions styled nodes into block, inline and anonymous
//! boxes.

pub mod text;
pub mod parser;
pub mod css;
pub mod dom;
pub mod html;
pub mod style;
pub mod layout;
