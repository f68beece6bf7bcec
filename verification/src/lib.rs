//! A small front end for marked-up pages: it reads style sheets and markup
//! text into trees, and every reader is proved to return exactly what the
//! grammar written down beside it says.

pub mod chars;
pub mod css;
pub mod css_grammar;
pub mod document;
pub mod dom;
pub mod error;
pub mod html;
pub mod html_grammar;
pub mod parser;
pub mod scan;
pub mod specificity;
pub mod stylesheet;
