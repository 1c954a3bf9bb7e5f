//! Scanners for two markdown extensions: an inline span `{base|annotation}`
//! and a fenced block `::: spoiler label` ... `:::` that may nest, together
//! with the text normalization applied to what they capture.
use vstd::prelude::*;

pub mod ruby;
pub mod spoiler;
pub mod text;

verus! {

/// The node made for each `~text~` pair; the pairing itself is left to the
/// host parser.
pub struct Sup;

impl Sup {
    /// The HTML element a superscript node is rendered as: `sub`.
    pub fn tag(&self) -> (r: &'static str)
        ensures
            r@ == seq!['s', 'u', 'b'],
    {
        proof {
            reveal_strlit("sub");
        }
        "sub"
    }
}

} // verus!
