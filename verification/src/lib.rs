//! CSS selector parsing and matching.
//!
//! The library parses CSS Selectors Level 4 text into a right-to-left
//! component representation and matches it against any DOM that implements
//! the [`element::Element`] trait. Every operation carries a contract checked
//! by Verus.
#![allow(unused_imports)]

pub mod atom;
pub mod attr;
pub mod bloom;
pub mod codegen;
pub mod context;
pub mod css_text;
pub mod css_token;
pub mod element;
pub mod flags;
pub mod fxhash;
pub mod has_cache;
pub mod invalidation;
pub mod keyword;
pub mod kleene;
pub mod matching;
pub mod nth_cache;
pub mod opaque;
pub mod parser;
pub mod pseudo_class;
pub mod pseudo_element;
pub mod rule_map;
pub mod shape;
pub mod small_buf;
pub mod specificity;
pub mod text;
pub mod types;
pub mod visitor;
pub mod weight;

use vstd::prelude::*;

verus! {

} // verus!
