//! CSS pseudo-elements.

use vstd::prelude::*;

verus! {

/// CSS pseudo-elements: virtual sub-elements for styling.
#[derive(Debug, Clone, Copy, PartialEq, Eq, Hash, Structural)]
pub enum PseudoElement {
    Before,
    After,
    FirstLine,
    FirstLetter,
    Placeholder,
    Selection,
    Marker,
    Backdrop,
    FileSelectorButton,
    GrammarError,
    SpellingError,
}

/// The CSS name of a pseudo-element.
pub open spec fn spec_pe_name(v: PseudoElement) -> Seq<char> {
    match v {
        PseudoElement::Before => "before"@,
        PseudoElement::After => "after"@,
        PseudoElement::FirstLine => "first-line"@,
        PseudoElement::FirstLetter => "first-letter"@,
        PseudoElement::Placeholder => "placeholder"@,
        PseudoElement::Selection => "selection"@,
        PseudoElement::Marker => "marker"@,
        PseudoElement::Backdrop => "backdrop"@,
        PseudoElement::FileSelectorButton => "file-selector-button"@,
        PseudoElement::GrammarError => "grammar-error"@,
        PseudoElement::SpellingError => "spelling-error"@,
    }
}

impl PseudoElement {
    /// The CSS name of this pseudo-element.
    pub fn css_name(self) -> (r: &'static str)
        ensures
            r@ == spec_pe_name(self),
    {
        match self {
            PseudoElement::Before => "before",
            PseudoElement::After => "after",
            PseudoElement::FirstLine => "first-line",
            PseudoElement::FirstLetter => "first-letter",
            PseudoElement::Placeholder => "placeholder",
            PseudoElement::Selection => "selection",
            PseudoElement::Marker => "marker",
            PseudoElement::Backdrop => "backdrop",
            PseudoElement::FileSelectorButton => "file-selector-button",
            PseudoElement::GrammarError => "grammar-error",
            PseudoElement::SpellingError => "spelling-error",
        }
    }

    /// Whether this pseudo-element accepts the legacy single-colon syntax
    /// (`:before`, `:after`, `:first-line`, `:first-letter`).
    pub fn allows_single_colon(self) -> (r: bool)
        ensures
            r == (self == PseudoElement::Before || self == PseudoElement::After || self
                == PseudoElement::FirstLine || self == PseudoElement::FirstLetter),
    {
        matches!(
            self,
            PseudoElement::Before | PseudoElement::After | PseudoElement::FirstLine
                | PseudoElement::FirstLetter
        )
    }

    /// Whether this pseudo-element creates generated content.
    pub fn is_generated_content(self) -> (r: bool)
        ensures
            r == (self == PseudoElement::Before || self == PseudoElement::After),
    {
        matches!(self, PseudoElement::Before | PseudoElement::After)
    }

    /// Specificity contribution: every pseudo-element adds (0, 0, 1).
    pub fn specificity_count(self) -> (r: u32)
        ensures
            r == 1,
    {
        1
    }
}

} // verus!
