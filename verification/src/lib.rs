//! Attributes of Rust syntax trees: their structured content (`Meta`), how they
//! are read from and written to token trees, and what holds across the two.
use vstd::prelude::*;

pub mod attr;
pub mod laws;
pub mod meta;
pub mod parsing;
pub mod printing;
pub mod token;

pub use attr::{AttrStyle, Attribute, FilterAttrs, Path, private};
pub use meta::{Lit, Meta, MetaList, MetaNameValue, NestedMeta};
pub use parsing::{Error, single_parse_inner, single_parse_outer};
pub use token::{Delimiter, Group, Ident, Literal, Punct, Spacing, TokenTree};

verus! {

} // verus!
