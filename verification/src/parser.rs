//! CSS selector parser.
//!
//! Parses selector text into a [`SelectorList`]. The text is read into a
//! token tree by the `cssparser` tokenizer; the grammar of CSS Selectors
//! Level 4 is parsed here, over the tokens:
//! - simple selectors: type, class, ID, universal, attribute, namespaces;
//! - pseudo-classes, including `:not()`, `:is()`, `:where()`, `:has()`,
//!   `:nth-*()`, `:lang()`, `:dir()`, `:state()`, `:host()`;
//! - pseudo-elements, including `::slotted()`, `::part()`, `::highlight()`;
//! - combinators: descendant, `>`, `+`, `~`, `||`; comma-separated lists.
//!
//! Components are collected left to right and stored right to left.
//! Specificity is accumulated while parsing. Keywords are compared with
//! `css_kw_eq`.
//!
//! Positions are token indices. A failed attempt leaves the position where
//! it was; components pushed before the failure stay.

use vstd::prelude::*;
use crate::atom::Atom;
use crate::small_buf::{AtomBuf, ComponentBuf, buf_items};
use crate::shape::{
    all_shaped, comps_shaped, lemma_shaped_extend, lemma_shaped_reverse, lemma_shaped_simple_run,
    lemma_singles_simple, sel_shaped, shape_law, simple_ok,
};
use crate::attr::{AttrOperation, AttrSelector, CaseSensitivity, spec_eq};
use crate::css_token::{CssToken, TokenKind, anb_of, css_tokens, parse_anb, tokenize};
use crate::fxhash::hash_str;
use crate::keyword::{css_kw_eq, css_kw_match, lemma_kw_differs_at, lemma_kw_self};
use crate::pseudo_class::{PseudoClass, spec_pc_name};
use crate::pseudo_element::{PseudoElement, spec_pe_name};
use crate::specificity::Specificity;
use crate::types::{
    Combinator, Component, Direction, HasTraversal, NamespaceConstraint, NthData,
    RelativeSelector, RelativeSelectorList, Selector, SelectorHints, SelectorList, selector_wf,
    spec_traversal, DEP_COMBINATORS,
};
use crate::weight::{
    all_weight_ok, comp_weight, comps_weight, lemma_singles_max, lemma_weight_push,
    lemma_weight_remove, lemma_weight_reverse, max_weight, rel_max, sel_weight, singles_max,
    specificity_law, weight_ok, wmax,
};


verus! {

/// The pseudo-class a keyword names: the first keyword of the table that the name matches, ignoring ASCII case as `css_kw_match` does.
pub open spec fn spec_parse_pseudo_class_name(name: Seq<char>) -> Option<PseudoClass> {
    if css_kw_match(name, "hover"@) {
        Some(PseudoClass::Hover)
    } else if css_kw_match(name, "active"@) {
        Some(PseudoClass::Active)
    } else if css_kw_match(name, "focus"@) {
        Some(PseudoClass::Focus)
    } else if css_kw_match(name, "focus-within"@) {
        Some(PseudoClass::FocusWithin)
    } else if css_kw_match(name, "focus-visible"@) {
        Some(PseudoClass::FocusVisible)
    } else if css_kw_match(name, "enabled"@) {
        Some(PseudoClass::Enabled)
    } else if css_kw_match(name, "disabled"@) {
        Some(PseudoClass::Disabled)
    } else if css_kw_match(name, "checked"@) {
        Some(PseudoClass::Checked)
    } else if css_kw_match(name, "indeterminate"@) {
        Some(PseudoClass::Indeterminate)
    } else if css_kw_match(name, "required"@) {
        Some(PseudoClass::Required)
    } else if css_kw_match(name, "optional"@) {
        Some(PseudoClass::Optional)
    } else if css_kw_match(name, "valid"@) {
        Some(PseudoClass::Valid)
    } else if css_kw_match(name, "invalid"@) {
        Some(PseudoClass::Invalid)
    } else if css_kw_match(name, "read-only"@) {
        Some(PseudoClass::ReadOnly)
    } else if css_kw_match(name, "read-write"@) {
        Some(PseudoClass::ReadWrite)
    } else if css_kw_match(name, "placeholder-shown"@) {
        Some(PseudoClass::PlaceholderShown)
    } else if css_kw_match(name, "default"@) {
        Some(PseudoClass::Default)
    } else if css_kw_match(name, "target"@) {
        Some(PseudoClass::Target)
    } else if css_kw_match(name, "visited"@) {
        Some(PseudoClass::Visited)
    } else if css_kw_match(name, "link"@) {
        Some(PseudoClass::Link)
    } else if css_kw_match(name, "any-link"@) {
        Some(PseudoClass::AnyLink)
    } else if css_kw_match(name, "fullscreen"@) {
        Some(PseudoClass::Fullscreen)
    } else if css_kw_match(name, "modal"@) {
        Some(PseudoClass::Modal)
    } else if css_kw_match(name, "popover-open"@) {
        Some(PseudoClass::PopoverOpen)
    } else if css_kw_match(name, "defined"@) {
        Some(PseudoClass::Defined)
    } else if css_kw_match(name, "autofill"@) {
        Some(PseudoClass::Autofill)
    } else if css_kw_match(name, "user-valid"@) {
        Some(PseudoClass::UserValid)
    } else if css_kw_match(name, "user-invalid"@) {
        Some(PseudoClass::UserInvalid)
    } else if css_kw_match(name, "root"@) {
        Some(PseudoClass::Root)
    } else if css_kw_match(name, "empty"@) {
        Some(PseudoClass::Empty)
    } else if css_kw_match(name, "first-child"@) {
        Some(PseudoClass::FirstChild)
    } else if css_kw_match(name, "last-child"@) {
        Some(PseudoClass::LastChild)
    } else if css_kw_match(name, "only-child"@) {
        Some(PseudoClass::OnlyChild)
    } else if css_kw_match(name, "first-of-type"@) {
        Some(PseudoClass::FirstOfType)
    } else if css_kw_match(name, "last-of-type"@) {
        Some(PseudoClass::LastOfType)
    } else if css_kw_match(name, "only-of-type"@) {
        Some(PseudoClass::OnlyOfType)
    } else if css_kw_match(name, "scope"@) {
        Some(PseudoClass::Scope)
    } else if css_kw_match(name, "playing"@) {
        Some(PseudoClass::Playing)
    } else if css_kw_match(name, "paused"@) {
        Some(PseudoClass::Paused)
    } else if css_kw_match(name, "seeking"@) {
        Some(PseudoClass::Seeking)
    } else if css_kw_match(name, "buffering"@) {
        Some(PseudoClass::Buffering)
    } else if css_kw_match(name, "stalled"@) {
        Some(PseudoClass::Stalled)
    } else if css_kw_match(name, "muted"@) {
        Some(PseudoClass::Muted)
    } else if css_kw_match(name, "volume-locked"@) {
        Some(PseudoClass::VolumeLocked)
    } else if css_kw_match(name, "blank"@) {
        Some(PseudoClass::Blank)
    } else if css_kw_match(name, "in-range"@) {
        Some(PseudoClass::InRange)
    } else if css_kw_match(name, "out-of-range"@) {
        Some(PseudoClass::OutOfRange)
    } else if css_kw_match(name, "open"@) {
        Some(PseudoClass::Open)
    } else if css_kw_match(name, "closed"@) {
        Some(PseudoClass::Closed)
    } else if css_kw_match(name, "picture-in-picture"@) {
        Some(PseudoClass::PictureInPicture)
    } else if css_kw_match(name, "target-within"@) {
        Some(PseudoClass::TargetWithin)
    } else if css_kw_match(name, "local-link"@) {
        Some(PseudoClass::LocalLink)
    } else if css_kw_match(name, "current"@) {
        Some(PseudoClass::Current)
    } else if css_kw_match(name, "past"@) {
        Some(PseudoClass::Past)
    } else if css_kw_match(name, "future"@) {
        Some(PseudoClass::Future)
    } else {
        None
    }
}

/// Look up a pseudo-class by name.
pub fn parse_pseudo_class_name(name: &str) -> (r: Option<PseudoClass>)
    ensures
        r == spec_parse_pseudo_class_name(name@),
{
    if css_kw_eq(name, "hover") {
        Some(PseudoClass::Hover)
    } else if css_kw_eq(name, "active") {
        Some(PseudoClass::Active)
    } else if css_kw_eq(name, "focus") {
        Some(PseudoClass::Focus)
    } else if css_kw_eq(name, "focus-within") {
        Some(PseudoClass::FocusWithin)
    } else if css_kw_eq(name, "focus-visible") {
        Some(PseudoClass::FocusVisible)
    } else if css_kw_eq(name, "enabled") {
        Some(PseudoClass::Enabled)
    } else if css_kw_eq(name, "disabled") {
        Some(PseudoClass::Disabled)
    } else if css_kw_eq(name, "checked") {
        Some(PseudoClass::Checked)
    } else if css_kw_eq(name, "indeterminate") {
        Some(PseudoClass::Indeterminate)
    } else if css_kw_eq(name, "required") {
        Some(PseudoClass::Required)
    } else if css_kw_eq(name, "optional") {
        Some(PseudoClass::Optional)
    } else if css_kw_eq(name, "valid") {
        Some(PseudoClass::Valid)
    } else if css_kw_eq(name, "invalid") {
        Some(PseudoClass::Invalid)
    } else if css_kw_eq(name, "read-only") {
        Some(PseudoClass::ReadOnly)
    } else if css_kw_eq(name, "read-write") {
        Some(PseudoClass::ReadWrite)
    } else if css_kw_eq(name, "placeholder-shown") {
        Some(PseudoClass::PlaceholderShown)
    } else if css_kw_eq(name, "default") {
        Some(PseudoClass::Default)
    } else if css_kw_eq(name, "target") {
        Some(PseudoClass::Target)
    } else if css_kw_eq(name, "visited") {
        Some(PseudoClass::Visited)
    } else if css_kw_eq(name, "link") {
        Some(PseudoClass::Link)
    } else if css_kw_eq(name, "any-link") {
        Some(PseudoClass::AnyLink)
    } else if css_kw_eq(name, "fullscreen") {
        Some(PseudoClass::Fullscreen)
    } else if css_kw_eq(name, "modal") {
        Some(PseudoClass::Modal)
    } else if css_kw_eq(name, "popover-open") {
        Some(PseudoClass::PopoverOpen)
    } else if css_kw_eq(name, "defined") {
        Some(PseudoClass::Defined)
    } else if css_kw_eq(name, "autofill") {
        Some(PseudoClass::Autofill)
    } else if css_kw_eq(name, "user-valid") {
        Some(PseudoClass::UserValid)
    } else if css_kw_eq(name, "user-invalid") {
        Some(PseudoClass::UserInvalid)
    } else if css_kw_eq(name, "root") {
        Some(PseudoClass::Root)
    } else if css_kw_eq(name, "empty") {
        Some(PseudoClass::Empty)
    } else if css_kw_eq(name, "first-child") {
        Some(PseudoClass::FirstChild)
    } else if css_kw_eq(name, "last-child") {
        Some(PseudoClass::LastChild)
    } else if css_kw_eq(name, "only-child") {
        Some(PseudoClass::OnlyChild)
    } else if css_kw_eq(name, "first-of-type") {
        Some(PseudoClass::FirstOfType)
    } else if css_kw_eq(name, "last-of-type") {
        Some(PseudoClass::LastOfType)
    } else if css_kw_eq(name, "only-of-type") {
        Some(PseudoClass::OnlyOfType)
    } else if css_kw_eq(name, "scope") {
        Some(PseudoClass::Scope)
    } else if css_kw_eq(name, "playing") {
        Some(PseudoClass::Playing)
    } else if css_kw_eq(name, "paused") {
        Some(PseudoClass::Paused)
    } else if css_kw_eq(name, "seeking") {
        Some(PseudoClass::Seeking)
    } else if css_kw_eq(name, "buffering") {
        Some(PseudoClass::Buffering)
    } else if css_kw_eq(name, "stalled") {
        Some(PseudoClass::Stalled)
    } else if css_kw_eq(name, "muted") {
        Some(PseudoClass::Muted)
    } else if css_kw_eq(name, "volume-locked") {
        Some(PseudoClass::VolumeLocked)
    } else if css_kw_eq(name, "blank") {
        Some(PseudoClass::Blank)
    } else if css_kw_eq(name, "in-range") {
        Some(PseudoClass::InRange)
    } else if css_kw_eq(name, "out-of-range") {
        Some(PseudoClass::OutOfRange)
    } else if css_kw_eq(name, "open") {
        Some(PseudoClass::Open)
    } else if css_kw_eq(name, "closed") {
        Some(PseudoClass::Closed)
    } else if css_kw_eq(name, "picture-in-picture") {
        Some(PseudoClass::PictureInPicture)
    } else if css_kw_eq(name, "target-within") {
        Some(PseudoClass::TargetWithin)
    } else if css_kw_eq(name, "local-link") {
        Some(PseudoClass::LocalLink)
    } else if css_kw_eq(name, "current") {
        Some(PseudoClass::Current)
    } else if css_kw_eq(name, "past") {
        Some(PseudoClass::Past)
    } else if css_kw_eq(name, "future") {
        Some(PseudoClass::Future)
    } else {
        None
    }
}

/// Reading back the CSS name of a pseudo-class gives that pseudo-class.
pub proof fn lemma_pseudo_class_name_round_trip(v: PseudoClass)
    ensures
        spec_parse_pseudo_class_name(spec_pc_name(v)) == Some(v),
{
    reveal_strlit("hover");
    reveal_strlit("active");
    reveal_strlit("focus");
    reveal_strlit("focus-within");
    reveal_strlit("focus-visible");
    reveal_strlit("enabled");
    reveal_strlit("disabled");
    reveal_strlit("checked");
    reveal_strlit("indeterminate");
    reveal_strlit("required");
    reveal_strlit("optional");
    reveal_strlit("valid");
    reveal_strlit("invalid");
    reveal_strlit("read-only");
    reveal_strlit("read-write");
    reveal_strlit("placeholder-shown");
    reveal_strlit("default");
    reveal_strlit("target");
    reveal_strlit("visited");
    reveal_strlit("link");
    reveal_strlit("any-link");
    reveal_strlit("fullscreen");
    reveal_strlit("modal");
    reveal_strlit("popover-open");
    reveal_strlit("defined");
    reveal_strlit("autofill");
    reveal_strlit("user-valid");
    reveal_strlit("user-invalid");
    reveal_strlit("root");
    reveal_strlit("empty");
    reveal_strlit("first-child");
    reveal_strlit("last-child");
    reveal_strlit("only-child");
    reveal_strlit("first-of-type");
    reveal_strlit("last-of-type");
    reveal_strlit("only-of-type");
    reveal_strlit("scope");
    reveal_strlit("playing");
    reveal_strlit("paused");
    reveal_strlit("seeking");
    reveal_strlit("buffering");
    reveal_strlit("stalled");
    reveal_strlit("muted");
    reveal_strlit("volume-locked");
    reveal_strlit("blank");
    reveal_strlit("in-range");
    reveal_strlit("out-of-range");
    reveal_strlit("open");
    reveal_strlit("closed");
    reveal_strlit("picture-in-picture");
    reveal_strlit("target-within");
    reveal_strlit("local-link");
    reveal_strlit("current");
    reveal_strlit("past");
    reveal_strlit("future");
    match v {
        PseudoClass::Hover => {
            lemma_kw_self(spec_pc_name(v));
        },
        PseudoClass::Active => {
            assert(!css_kw_match(spec_pc_name(v), "hover"@));
            lemma_kw_self(spec_pc_name(v));
        },
        PseudoClass::Focus => {
            lemma_kw_differs_at(spec_pc_name(v), "hover"@, 0);
            assert(!css_kw_match(spec_pc_name(v), "active"@));
            lemma_kw_self(spec_pc_name(v));
        },
        PseudoClass::FocusWithin => {
            assert(!css_kw_match(spec_pc_name(v), "hover"@));
            assert(!css_kw_match(spec_pc_name(v), "active"@));
            assert(!css_kw_match(spec_pc_name(v), "focus"@));
            lemma_kw_self(spec_pc_name(v));
        },
        PseudoClass::FocusVisible => {
            assert(!css_kw_match(spec_pc_name(v), "hover"@));
            assert(!css_kw_match(spec_pc_name(v), "active"@));
            assert(!css_kw_match(spec_pc_name(v), "focus"@));
            assert(!css_kw_match(spec_pc_name(v), "focus-within"@));
            lemma_kw_self(spec_pc_name(v));
        },
        PseudoClass::Enabled => {
            assert(!css_kw_match(spec_pc_name(v), "hover"@));
            assert(!css_kw_match(spec_pc_name(v), "active"@));
            assert(!css_kw_match(spec_pc_name(v), "focus"@));
            assert(!css_kw_match(spec_pc_name(v), "focus-within"@));
            assert(!css_kw_match(spec_pc_name(v), "focus-visible"@));
            lemma_kw_self(spec_pc_name(v));
        },
        PseudoClass::Disabled => {
            assert(!css_kw_match(spec_pc_name(v), "hover"@));
            assert(!css_kw_match(spec_pc_name(v), "active"@));
            assert(!css_kw_match(spec_pc_name(v), "focus"@));
            assert(!css_kw_match(spec_pc_name(v), "focus-within"@));
            assert(!css_kw_match(spec_pc_name(v), "focus-visible"@));
            assert(!css_kw_match(spec_pc_name(v), "enabled"@));
            lemma_kw_self(spec_pc_name(v));
        },
        PseudoClass::Checked => {
            assert(!css_kw_match(spec_pc_name(v), "hover"@));
            assert(!css_kw_match(spec_pc_name(v), "active"@));
            assert(!css_kw_match(spec_pc_name(v), "focus"@));
            assert(!css_kw_match(spec_pc_name(v), "focus-within"@));
            assert(!css_kw_match(spec_pc_name(v), "focus-visible"@));
            lemma_kw_differs_at(spec_pc_name(v), "enabled"@, 0);
            assert(!css_kw_match(spec_pc_name(v), "disabled"@));
            lemma_kw_self(spec_pc_name(v));
        },
        PseudoClass::Indeterminate => {
            assert(!css_kw_match(spec_pc_name(v), "hover"@));
            assert(!css_kw_match(spec_pc_name(v), "active"@));
            assert(!css_kw_match(spec_pc_name(v), "focus"@));
            assert(!css_kw_match(spec_pc_name(v), "focus-within"@));
            lemma_kw_differs_at(spec_pc_name(v), "focus-visible"@, 0);
            assert(!css_kw_match(spec_pc_name(v), "enabled"@));
            assert(!css_kw_match(spec_pc_name(v), "disabled"@));
            assert(!css_kw_match(spec_pc_name(v), "checked"@));
            lemma_kw_self(spec_pc_name(v));
        },
        PseudoClass::Required => {
            assert(!css_kw_match(spec_pc_name(v), "hover"@));
            assert(!css_kw_match(spec_pc_name(v), "active"@));
            assert(!css_kw_match(spec_pc_name(v), "focus"@));
            assert(!css_kw_match(spec_pc_name(v), "focus-within"@));
            assert(!css_kw_match(spec_pc_name(v), "focus-visible"@));
            assert(!css_kw_match(spec_pc_name(v), "enabled"@));
            lemma_kw_differs_at(spec_pc_name(v), "disabled"@, 0);
            assert(!css_kw_match(spec_pc_name(v), "checked"@));
            assert(!css_kw_match(spec_pc_name(v), "indeterminate"@));
            lemma_kw_self(spec_pc_name(v));
        },
        PseudoClass::Optional => {
            assert(!css_kw_match(spec_pc_name(v), "hover"@));
            assert(!css_kw_match(spec_pc_name(v), "active"@));
            assert(!css_kw_match(spec_pc_name(v), "focus"@));
            assert(!css_kw_match(spec_pc_name(v), "focus-within"@));
            assert(!css_kw_match(spec_pc_name(v), "focus-visible"@));
            assert(!css_kw_match(spec_pc_name(v), "enabled"@));
            lemma_kw_differs_at(spec_pc_name(v), "disabled"@, 0);
            assert(!css_kw_match(spec_pc_name(v), "checked"@));
            assert(!css_kw_match(spec_pc_name(v), "indeterminate"@));
            lemma_kw_differs_at(spec_pc_name(v), "required"@, 0);
            lemma_kw_self(spec_pc_name(v));
        },
        PseudoClass::Valid => {
            lemma_kw_differs_at(spec_pc_name(v), "hover"@, 0);
            assert(!css_kw_match(spec_pc_name(v), "active"@));
            lemma_kw_differs_at(spec_pc_name(v), "focus"@, 0);
            assert(!css_kw_match(spec_pc_name(v), "focus-within"@));
            assert(!css_kw_match(spec_pc_name(v), "focus-visible"@));
            assert(!css_kw_match(spec_pc_name(v), "enabled"@));
            assert(!css_kw_match(spec_pc_name(v), "disabled"@));
            assert(!css_kw_match(spec_pc_name(v), "checked"@));
            assert(!css_kw_match(spec_pc_name(v), "indeterminate"@));
            assert(!css_kw_match(spec_pc_name(v), "required"@));
            assert(!css_kw_match(spec_pc_name(v), "optional"@));
            lemma_kw_self(spec_pc_name(v));
        },
        PseudoClass::Invalid => {
            assert(!css_kw_match(spec_pc_name(v), "hover"@));
            assert(!css_kw_match(spec_pc_name(v), "active"@));
            assert(!css_kw_match(spec_pc_name(v), "focus"@));
            assert(!css_kw_match(spec_pc_name(v), "focus-within"@));
            assert(!css_kw_match(spec_pc_name(v), "focus-visible"@));
            lemma_kw_differs_at(spec_pc_name(v), "enabled"@, 0);
            assert(!css_kw_match(spec_pc_name(v), "disabled"@));
            lemma_kw_differs_at(spec_pc_name(v), "checked"@, 0);
            assert(!css_kw_match(spec_pc_name(v), "indeterminate"@));
            assert(!css_kw_match(spec_pc_name(v), "required"@));
            assert(!css_kw_match(spec_pc_name(v), "optional"@));
            assert(!css_kw_match(spec_pc_name(v), "valid"@));
            lemma_kw_self(spec_pc_name(v));
        },
        PseudoClass::ReadOnly => {
            assert(!css_kw_match(spec_pc_name(v), "hover"@));
            assert(!css_kw_match(spec_pc_name(v), "active"@));
            assert(!css_kw_match(spec_pc_name(v), "focus"@));
            assert(!css_kw_match(spec_pc_name(v), "focus-within"@));
            assert(!css_kw_match(spec_pc_name(v), "focus-visible"@));
            assert(!css_kw_match(spec_pc_name(v), "enabled"@));
            assert(!css_kw_match(spec_pc_name(v), "disabled"@));
            assert(!css_kw_match(spec_pc_name(v), "checked"@));
            assert(!css_kw_match(spec_pc_name(v), "indeterminate"@));
            assert(!css_kw_match(spec_pc_name(v), "required"@));
            assert(!css_kw_match(spec_pc_name(v), "optional"@));
            assert(!css_kw_match(spec_pc_name(v), "valid"@));
            assert(!css_kw_match(spec_pc_name(v), "invalid"@));
            lemma_kw_self(spec_pc_name(v));
        },
        PseudoClass::ReadWrite => {
            assert(!css_kw_match(spec_pc_name(v), "hover"@));
            assert(!css_kw_match(spec_pc_name(v), "active"@));
            assert(!css_kw_match(spec_pc_name(v), "focus"@));
            assert(!css_kw_match(spec_pc_name(v), "focus-within"@));
            assert(!css_kw_match(spec_pc_name(v), "focus-visible"@));
            assert(!css_kw_match(spec_pc_name(v), "enabled"@));
            assert(!css_kw_match(spec_pc_name(v), "disabled"@));
            assert(!css_kw_match(spec_pc_name(v), "checked"@));
            assert(!css_kw_match(spec_pc_name(v), "indeterminate"@));
            assert(!css_kw_match(spec_pc_name(v), "required"@));
            assert(!css_kw_match(spec_pc_name(v), "optional"@));
            assert(!css_kw_match(spec_pc_name(v), "valid"@));
            assert(!css_kw_match(spec_pc_name(v), "invalid"@));
            assert(!css_kw_match(spec_pc_name(v), "read-only"@));
            lemma_kw_self(spec_pc_name(v));
        },
        PseudoClass::PlaceholderShown => {
            assert(!css_kw_match(spec_pc_name(v), "hover"@));
            assert(!css_kw_match(spec_pc_name(v), "active"@));
            assert(!css_kw_match(spec_pc_name(v), "focus"@));
            assert(!css_kw_match(spec_pc_name(v), "focus-within"@));
            assert(!css_kw_match(spec_pc_name(v), "focus-visible"@));
            assert(!css_kw_match(spec_pc_name(v), "enabled"@));
            assert(!css_kw_match(spec_pc_name(v), "disabled"@));
            assert(!css_kw_match(spec_pc_name(v), "checked"@));
            assert(!css_kw_match(spec_pc_name(v), "indeterminate"@));
            assert(!css_kw_match(spec_pc_name(v), "required"@));
            assert(!css_kw_match(spec_pc_name(v), "optional"@));
            assert(!css_kw_match(spec_pc_name(v), "valid"@));
            assert(!css_kw_match(spec_pc_name(v), "invalid"@));
            assert(!css_kw_match(spec_pc_name(v), "read-only"@));
            assert(!css_kw_match(spec_pc_name(v), "read-write"@));
            lemma_kw_self(spec_pc_name(v));
        },
        PseudoClass::Default => {
            assert(!css_kw_match(spec_pc_name(v), "hover"@));
            assert(!css_kw_match(spec_pc_name(v), "active"@));
            assert(!css_kw_match(spec_pc_name(v), "focus"@));
            assert(!css_kw_match(spec_pc_name(v), "focus-within"@));
            assert(!css_kw_match(spec_pc_name(v), "focus-visible"@));
            lemma_kw_differs_at(spec_pc_name(v), "enabled"@, 0);
            assert(!css_kw_match(spec_pc_name(v), "disabled"@));
            lemma_kw_differs_at(spec_pc_name(v), "checked"@, 0);
            assert(!css_kw_match(spec_pc_name(v), "indeterminate"@));
            assert(!css_kw_match(spec_pc_name(v), "required"@));
            assert(!css_kw_match(spec_pc_name(v), "optional"@));
            assert(!css_kw_match(spec_pc_name(v), "valid"@));
            lemma_kw_differs_at(spec_pc_name(v), "invalid"@, 0);
            assert(!css_kw_match(spec_pc_name(v), "read-only"@));
            assert(!css_kw_match(spec_pc_name(v), "read-write"@));
            assert(!css_kw_match(spec_pc_name(v), "placeholder-shown"@));
            lemma_kw_self(spec_pc_name(v));
        },
        PseudoClass::Target => {
            assert(!css_kw_match(spec_pc_name(v), "hover"@));
            lemma_kw_differs_at(spec_pc_name(v), "active"@, 0);
            assert(!css_kw_match(spec_pc_name(v), "focus"@));
            assert(!css_kw_match(spec_pc_name(v), "focus-within"@));
            assert(!css_kw_match(spec_pc_name(v), "focus-visible"@));
            assert(!css_kw_match(spec_pc_name(v), "enabled"@));
            assert(!css_kw_match(spec_pc_name(v), "disabled"@));
            assert(!css_kw_match(spec_pc_name(v), "checked"@));
            assert(!css_kw_match(spec_pc_name(v), "indeterminate"@));
            assert(!css_kw_match(spec_pc_name(v), "required"@));
            assert(!css_kw_match(spec_pc_name(v), "optional"@));
            assert(!css_kw_match(spec_pc_name(v), "valid"@));
            assert(!css_kw_match(spec_pc_name(v), "invalid"@));
            assert(!css_kw_match(spec_pc_name(v), "read-only"@));
            assert(!css_kw_match(spec_pc_name(v), "read-write"@));
            assert(!css_kw_match(spec_pc_name(v), "placeholder-shown"@));
            assert(!css_kw_match(spec_pc_name(v), "default"@));
            lemma_kw_self(spec_pc_name(v));
        },
        PseudoClass::Visited => {
            assert(!css_kw_match(spec_pc_name(v), "hover"@));
            assert(!css_kw_match(spec_pc_name(v), "active"@));
            assert(!css_kw_match(spec_pc_name(v), "focus"@));
            assert(!css_kw_match(spec_pc_name(v), "focus-within"@));
            assert(!css_kw_match(spec_pc_name(v), "focus-visible"@));
            lemma_kw_differs_at(spec_pc_name(v), "enabled"@, 0);
            assert(!css_kw_match(spec_pc_name(v), "disabled"@));
            lemma_kw_differs_at(spec_pc_name(v), "checked"@, 0);
            assert(!css_kw_match(spec_pc_name(v), "indeterminate"@));
            assert(!css_kw_match(spec_pc_name(v), "required"@));
            assert(!css_kw_match(spec_pc_name(v), "optional"@));
            assert(!css_kw_match(spec_pc_name(v), "valid"@));
            lemma_kw_differs_at(spec_pc_name(v), "invalid"@, 0);
            assert(!css_kw_match(spec_pc_name(v), "read-only"@));
            assert(!css_kw_match(spec_pc_name(v), "read-write"@));
            assert(!css_kw_match(spec_pc_name(v), "placeholder-shown"@));
            lemma_kw_differs_at(spec_pc_name(v), "default"@, 0);
            assert(!css_kw_match(spec_pc_name(v), "target"@));
            lemma_kw_self(spec_pc_name(v));
        },
        PseudoClass::Link => {
            assert(!css_kw_match(spec_pc_name(v), "hover"@));
            assert(!css_kw_match(spec_pc_name(v), "active"@));
            assert(!css_kw_match(spec_pc_name(v), "focus"@));
            assert(!css_kw_match(spec_pc_name(v), "focus-within"@));
            assert(!css_kw_match(spec_pc_name(v), "focus-visible"@));
            assert(!css_kw_match(spec_pc_name(v), "enabled"@));
            assert(!css_kw_match(spec_pc_name(v), "disabled"@));
            assert(!css_kw_match(spec_pc_name(v), "checked"@));
            assert(!css_kw_match(spec_pc_name(v), "indeterminate"@));
            assert(!css_kw_match(spec_pc_name(v), "required"@));
            assert(!css_kw_match(spec_pc_name(v), "optional"@));
            assert(!css_kw_match(spec_pc_name(v), "valid"@));
            assert(!css_kw_match(spec_pc_name(v), "invalid"@));
            assert(!css_kw_match(spec_pc_name(v), "read-only"@));
            assert(!css_kw_match(spec_pc_name(v), "read-write"@));
            assert(!css_kw_match(spec_pc_name(v), "placeholder-shown"@));
            assert(!css_kw_match(spec_pc_name(v), "default"@));
            assert(!css_kw_match(spec_pc_name(v), "target"@));
            assert(!css_kw_match(spec_pc_name(v), "visited"@));
            lemma_kw_self(spec_pc_name(v));
        },
        PseudoClass::AnyLink => {
            assert(!css_kw_match(spec_pc_name(v), "hover"@));
            assert(!css_kw_match(spec_pc_name(v), "active"@));
            assert(!css_kw_match(spec_pc_name(v), "focus"@));
            assert(!css_kw_match(spec_pc_name(v), "focus-within"@));
            assert(!css_kw_match(spec_pc_name(v), "focus-visible"@));
            assert(!css_kw_match(spec_pc_name(v), "enabled"@));
            lemma_kw_differs_at(spec_pc_name(v), "disabled"@, 0);
            assert(!css_kw_match(spec_pc_name(v), "checked"@));
            assert(!css_kw_match(spec_pc_name(v), "indeterminate"@));
            lemma_kw_differs_at(spec_pc_name(v), "required"@, 0);
            lemma_kw_differs_at(spec_pc_name(v), "optional"@, 0);
            assert(!css_kw_match(spec_pc_name(v), "valid"@));
            assert(!css_kw_match(spec_pc_name(v), "invalid"@));
            assert(!css_kw_match(spec_pc_name(v), "read-only"@));
            assert(!css_kw_match(spec_pc_name(v), "read-write"@));
            assert(!css_kw_match(spec_pc_name(v), "placeholder-shown"@));
            assert(!css_kw_match(spec_pc_name(v), "default"@));
            assert(!css_kw_match(spec_pc_name(v), "target"@));
            assert(!css_kw_match(spec_pc_name(v), "visited"@));
            assert(!css_kw_match(spec_pc_name(v), "link"@));
            lemma_kw_self(spec_pc_name(v));
        },
        PseudoClass::Fullscreen => {
            assert(!css_kw_match(spec_pc_name(v), "hover"@));
            assert(!css_kw_match(spec_pc_name(v), "active"@));
            assert(!css_kw_match(spec_pc_name(v), "focus"@));
            assert(!css_kw_match(spec_pc_name(v), "focus-within"@));
            assert(!css_kw_match(spec_pc_name(v), "focus-visible"@));
            assert(!css_kw_match(spec_pc_name(v), "enabled"@));
            assert(!css_kw_match(spec_pc_name(v), "disabled"@));
            assert(!css_kw_match(spec_pc_name(v), "checked"@));
            assert(!css_kw_match(spec_pc_name(v), "indeterminate"@));
            assert(!css_kw_match(spec_pc_name(v), "required"@));
            assert(!css_kw_match(spec_pc_name(v), "optional"@));
            assert(!css_kw_match(spec_pc_name(v), "valid"@));
            assert(!css_kw_match(spec_pc_name(v), "invalid"@));
            assert(!css_kw_match(spec_pc_name(v), "read-only"@));
            lemma_kw_differs_at(spec_pc_name(v), "read-write"@, 0);
            assert(!css_kw_match(spec_pc_name(v), "placeholder-shown"@));
            assert(!css_kw_match(spec_pc_name(v), "default"@));
            assert(!css_kw_match(spec_pc_name(v), "target"@));
            assert(!css_kw_match(spec_pc_name(v), "visited"@));
            assert(!css_kw_match(spec_pc_name(v), "link"@));
            assert(!css_kw_match(spec_pc_name(v), "any-link"@));
            lemma_kw_self(spec_pc_name(v));
        },
        PseudoClass::Modal => {
            lemma_kw_differs_at(spec_pc_name(v), "hover"@, 0);
            assert(!css_kw_match(spec_pc_name(v), "active"@));
            lemma_kw_differs_at(spec_pc_name(v), "focus"@, 0);
            assert(!css_kw_match(spec_pc_name(v), "focus-within"@));
            assert(!css_kw_match(spec_pc_name(v), "focus-visible"@));
            assert(!css_kw_match(spec_pc_name(v), "enabled"@));
            assert(!css_kw_match(spec_pc_name(v), "disabled"@));
            assert(!css_kw_match(spec_pc_name(v), "checked"@));
            assert(!css_kw_match(spec_pc_name(v), "indeterminate"@));
            assert(!css_kw_match(spec_pc_name(v), "required"@));
            assert(!css_kw_match(spec_pc_name(v), "optional"@));
            lemma_kw_differs_at(spec_pc_name(v), "valid"@, 0);
            assert(!css_kw_match(spec_pc_name(v), "invalid"@));
            assert(!css_kw_match(spec_pc_name(v), "read-only"@));
            assert(!css_kw_match(spec_pc_name(v), "read-write"@));
            assert(!css_kw_match(spec_pc_name(v), "placeholder-shown"@));
            assert(!css_kw_match(spec_pc_name(v), "default"@));
            assert(!css_kw_match(spec_pc_name(v), "target"@));
            assert(!css_kw_match(spec_pc_name(v), "visited"@));
            assert(!css_kw_match(spec_pc_name(v), "link"@));
            assert(!css_kw_match(spec_pc_name(v), "any-link"@));
            assert(!css_kw_match(spec_pc_name(v), "fullscreen"@));
            lemma_kw_self(spec_pc_name(v));
        },
        PseudoClass::PopoverOpen => {
            assert(!css_kw_match(spec_pc_name(v), "hover"@));
            assert(!css_kw_match(spec_pc_name(v), "active"@));
            assert(!css_kw_match(spec_pc_name(v), "focus"@));
            lemma_kw_differs_at(spec_pc_name(v), "focus-within"@, 0);
            assert(!css_kw_match(spec_pc_name(v), "focus-visible"@));
            assert(!css_kw_match(spec_pc_name(v), "enabled"@));
            assert(!css_kw_match(spec_pc_name(v), "disabled"@));
            assert(!css_kw_match(spec_pc_name(v), "checked"@));
            assert(!css_kw_match(spec_pc_name(v), "indeterminate"@));
            assert(!css_kw_match(spec_pc_name(v), "required"@));
            assert(!css_kw_match(spec_pc_name(v), "optional"@));
            assert(!css_kw_match(spec_pc_name(v), "valid"@));
            assert(!css_kw_match(spec_pc_name(v), "invalid"@));
            assert(!css_kw_match(spec_pc_name(v), "read-only"@));
            assert(!css_kw_match(spec_pc_name(v), "read-write"@));
            assert(!css_kw_match(spec_pc_name(v), "placeholder-shown"@));
            assert(!css_kw_match(spec_pc_name(v), "default"@));
            assert(!css_kw_match(spec_pc_name(v), "target"@));
            assert(!css_kw_match(spec_pc_name(v), "visited"@));
            assert(!css_kw_match(spec_pc_name(v), "link"@));
            assert(!css_kw_match(spec_pc_name(v), "any-link"@));
            assert(!css_kw_match(spec_pc_name(v), "fullscreen"@));
            assert(!css_kw_match(spec_pc_name(v), "modal"@));
            lemma_kw_self(spec_pc_name(v));
        },
        PseudoClass::Defined => {
            assert(!css_kw_match(spec_pc_name(v), "hover"@));
            assert(!css_kw_match(spec_pc_name(v), "active"@));
            assert(!css_kw_match(spec_pc_name(v), "focus"@));
            assert(!css_kw_match(spec_pc_name(v), "focus-within"@));
            assert(!css_kw_match(spec_pc_name(v), "focus-visible"@));
            lemma_kw_differs_at(spec_pc_name(v), "enabled"@, 0);
            assert(!css_kw_match(spec_pc_name(v), "disabled"@));
            lemma_kw_differs_at(spec_pc_name(v), "checked"@, 0);
            assert(!css_kw_match(spec_pc_name(v), "indeterminate"@));
            assert(!css_kw_match(spec_pc_name(v), "required"@));
            assert(!css_kw_match(spec_pc_name(v), "optional"@));
            assert(!css_kw_match(spec_pc_name(v), "valid"@));
            lemma_kw_differs_at(spec_pc_name(v), "invalid"@, 0);
            assert(!css_kw_match(spec_pc_name(v), "read-only"@));
            assert(!css_kw_match(spec_pc_name(v), "read-write"@));
            assert(!css_kw_match(spec_pc_name(v), "placeholder-shown"@));
            lemma_kw_differs_at(spec_pc_name(v), "default"@, 3);
            assert(!css_kw_match(spec_pc_name(v), "target"@));
            lemma_kw_differs_at(spec_pc_name(v), "visited"@, 0);
            assert(!css_kw_match(spec_pc_name(v), "link"@));
            assert(!css_kw_match(spec_pc_name(v), "any-link"@));
            assert(!css_kw_match(spec_pc_name(v), "fullscreen"@));
            assert(!css_kw_match(spec_pc_name(v), "modal"@));
            assert(!css_kw_match(spec_pc_name(v), "popover-open"@));
            lemma_kw_self(spec_pc_name(v));
        },
        PseudoClass::Autofill => {
            assert(!css_kw_match(spec_pc_name(v), "hover"@));
            assert(!css_kw_match(spec_pc_name(v), "active"@));
            assert(!css_kw_match(spec_pc_name(v), "focus"@));
            assert(!css_kw_match(spec_pc_name(v), "focus-within"@));
            assert(!css_kw_match(spec_pc_name(v), "focus-visible"@));
            assert(!css_kw_match(spec_pc_name(v), "enabled"@));
            lemma_kw_differs_at(spec_pc_name(v), "disabled"@, 0);
            assert(!css_kw_match(spec_pc_name(v), "checked"@));
            assert(!css_kw_match(spec_pc_name(v), "indeterminate"@));
            lemma_kw_differs_at(spec_pc_name(v), "required"@, 0);
            lemma_kw_differs_at(spec_pc_name(v), "optional"@, 0);
            assert(!css_kw_match(spec_pc_name(v), "valid"@));
            assert(!css_kw_match(spec_pc_name(v), "invalid"@));
            assert(!css_kw_match(spec_pc_name(v), "read-only"@));
            assert(!css_kw_match(spec_pc_name(v), "read-write"@));
            assert(!css_kw_match(spec_pc_name(v), "placeholder-shown"@));
            assert(!css_kw_match(spec_pc_name(v), "default"@));
            assert(!css_kw_match(spec_pc_name(v), "target"@));
            assert(!css_kw_match(spec_pc_name(v), "visited"@));
            assert(!css_kw_match(spec_pc_name(v), "link"@));
            lemma_kw_differs_at(spec_pc_name(v), "any-link"@, 1);
            assert(!css_kw_match(spec_pc_name(v), "fullscreen"@));
            assert(!css_kw_match(spec_pc_name(v), "modal"@));
            assert(!css_kw_match(spec_pc_name(v), "popover-open"@));
            assert(!css_kw_match(spec_pc_name(v), "defined"@));
            lemma_kw_self(spec_pc_name(v));
        },
        PseudoClass::UserValid => {
            assert(!css_kw_match(spec_pc_name(v), "hover"@));
            assert(!css_kw_match(spec_pc_name(v), "active"@));
            assert(!css_kw_match(spec_pc_name(v), "focus"@));
            assert(!css_kw_match(spec_pc_name(v), "focus-within"@));
            assert(!css_kw_match(spec_pc_name(v), "focus-visible"@));
            assert(!css_kw_match(spec_pc_name(v), "enabled"@));
            assert(!css_kw_match(spec_pc_name(v), "disabled"@));
            assert(!css_kw_match(spec_pc_name(v), "checked"@));
            assert(!css_kw_match(spec_pc_name(v), "indeterminate"@));
            assert(!css_kw_match(spec_pc_name(v), "required"@));
            assert(!css_kw_match(spec_pc_name(v), "optional"@));
            assert(!css_kw_match(spec_pc_name(v), "valid"@));
            assert(!css_kw_match(spec_pc_name(v), "invalid"@));
            assert(!css_kw_match(spec_pc_name(v), "read-only"@));
            lemma_kw_differs_at(spec_pc_name(v), "read-write"@, 0);
            assert(!css_kw_match(spec_pc_name(v), "placeholder-shown"@));
            assert(!css_kw_match(spec_pc_name(v), "default"@));
            assert(!css_kw_match(spec_pc_name(v), "target"@));
            assert(!css_kw_match(spec_pc_name(v), "visited"@));
            assert(!css_kw_match(spec_pc_name(v), "link"@));
            assert(!css_kw_match(spec_pc_name(v), "any-link"@));
            lemma_kw_differs_at(spec_pc_name(v), "fullscreen"@, 0);
            assert(!css_kw_match(spec_pc_name(v), "modal"@));
            assert(!css_kw_match(spec_pc_name(v), "popover-open"@));
            assert(!css_kw_match(spec_pc_name(v), "defined"@));
            assert(!css_kw_match(spec_pc_name(v), "autofill"@));
            lemma_kw_self(spec_pc_name(v));
        },
        PseudoClass::UserInvalid => {
            assert(!css_kw_match(spec_pc_name(v), "hover"@));
            assert(!css_kw_match(spec_pc_name(v), "active"@));
            assert(!css_kw_match(spec_pc_name(v), "focus"@));
            lemma_kw_differs_at(spec_pc_name(v), "focus-within"@, 0);
            assert(!css_kw_match(spec_pc_name(v), "focus-visible"@));
            assert(!css_kw_match(spec_pc_name(v), "enabled"@));
            assert(!css_kw_match(spec_pc_name(v), "disabled"@));
            assert(!css_kw_match(spec_pc_name(v), "checked"@));
            assert(!css_kw_match(spec_pc_name(v), "indeterminate"@));
            assert(!css_kw_match(spec_pc_name(v), "required"@));
            assert(!css_kw_match(spec_pc_name(v), "optional"@));
            assert(!css_kw_match(spec_pc_name(v), "valid"@));
            assert(!css_kw_match(spec_pc_name(v), "invalid"@));
            assert(!css_kw_match(spec_pc_name(v), "read-only"@));
            assert(!css_kw_match(spec_pc_name(v), "read-write"@));
            assert(!css_kw_match(spec_pc_name(v), "placeholder-shown"@));
            assert(!css_kw_match(spec_pc_name(v), "default"@));
            assert(!css_kw_match(spec_pc_name(v), "target"@));
            assert(!css_kw_match(spec_pc_name(v), "visited"@));
            assert(!css_kw_match(spec_pc_name(v), "link"@));
            assert(!css_kw_match(spec_pc_name(v), "any-link"@));
            assert(!css_kw_match(spec_pc_name(v), "fullscreen"@));
            assert(!css_kw_match(spec_pc_name(v), "modal"@));
            lemma_kw_differs_at(spec_pc_name(v), "popover-open"@, 0);
            assert(!css_kw_match(spec_pc_name(v), "defined"@));
            assert(!css_kw_match(spec_pc_name(v), "autofill"@));
            assert(!css_kw_match(spec_pc_name(v), "user-valid"@));
            lemma_kw_self(spec_pc_name(v));
        },
        PseudoClass::Root => {
            assert(!css_kw_match(spec_pc_name(v), "hover"@));
            assert(!css_kw_match(spec_pc_name(v), "active"@));
            assert(!css_kw_match(spec_pc_name(v), "focus"@));
            assert(!css_kw_match(spec_pc_name(v), "focus-within"@));
            assert(!css_kw_match(spec_pc_name(v), "focus-visible"@));
            assert(!css_kw_match(spec_pc_name(v), "enabled"@));
            assert(!css_kw_match(spec_pc_name(v), "disabled"@));
            assert(!css_kw_match(spec_pc_name(v), "checked"@));
            assert(!css_kw_match(spec_pc_name(v), "indeterminate"@));
            assert(!css_kw_match(spec_pc_name(v), "required"@));
            assert(!css_kw_match(spec_pc_name(v), "optional"@));
            assert(!css_kw_match(spec_pc_name(v), "valid"@));
            assert(!css_kw_match(spec_pc_name(v), "invalid"@));
            assert(!css_kw_match(spec_pc_name(v), "read-only"@));
            assert(!css_kw_match(spec_pc_name(v), "read-write"@));
            assert(!css_kw_match(spec_pc_name(v), "placeholder-shown"@));
            assert(!css_kw_match(spec_pc_name(v), "default"@));
            assert(!css_kw_match(spec_pc_name(v), "target"@));
            assert(!css_kw_match(spec_pc_name(v), "visited"@));
            lemma_kw_differs_at(spec_pc_name(v), "link"@, 0);
            assert(!css_kw_match(spec_pc_name(v), "any-link"@));
            assert(!css_kw_match(spec_pc_name(v), "fullscreen"@));
            assert(!css_kw_match(spec_pc_name(v), "modal"@));
            assert(!css_kw_match(spec_pc_name(v), "popover-open"@));
            assert(!css_kw_match(spec_pc_name(v), "defined"@));
            assert(!css_kw_match(spec_pc_name(v), "autofill"@));
            assert(!css_kw_match(spec_pc_name(v), "user-valid"@));
            assert(!css_kw_match(spec_pc_name(v), "user-invalid"@));
            lemma_kw_self(spec_pc_name(v));
        },
        PseudoClass::Empty => {
            lemma_kw_differs_at(spec_pc_name(v), "hover"@, 0);
            assert(!css_kw_match(spec_pc_name(v), "active"@));
            lemma_kw_differs_at(spec_pc_name(v), "focus"@, 0);
            assert(!css_kw_match(spec_pc_name(v), "focus-within"@));
            assert(!css_kw_match(spec_pc_name(v), "focus-visible"@));
            assert(!css_kw_match(spec_pc_name(v), "enabled"@));
            assert(!css_kw_match(spec_pc_name(v), "disabled"@));
            assert(!css_kw_match(spec_pc_name(v), "checked"@));
            assert(!css_kw_match(spec_pc_name(v), "indeterminate"@));
            assert(!css_kw_match(spec_pc_name(v), "required"@));
            assert(!css_kw_match(spec_pc_name(v), "optional"@));
            lemma_kw_differs_at(spec_pc_name(v), "valid"@, 0);
            assert(!css_kw_match(spec_pc_name(v), "invalid"@));
            assert(!css_kw_match(spec_pc_name(v), "read-only"@));
            assert(!css_kw_match(spec_pc_name(v), "read-write"@));
            assert(!css_kw_match(spec_pc_name(v), "placeholder-shown"@));
            assert(!css_kw_match(spec_pc_name(v), "default"@));
            assert(!css_kw_match(spec_pc_name(v), "target"@));
            assert(!css_kw_match(spec_pc_name(v), "visited"@));
            assert(!css_kw_match(spec_pc_name(v), "link"@));
            assert(!css_kw_match(spec_pc_name(v), "any-link"@));
            assert(!css_kw_match(spec_pc_name(v), "fullscreen"@));
            lemma_kw_differs_at(spec_pc_name(v), "modal"@, 0);
            assert(!css_kw_match(spec_pc_name(v), "popover-open"@));
            assert(!css_kw_match(spec_pc_name(v), "defined"@));
            assert(!css_kw_match(spec_pc_name(v), "autofill"@));
            assert(!css_kw_match(spec_pc_name(v), "user-valid"@));
            assert(!css_kw_match(spec_pc_name(v), "user-invalid"@));
            assert(!css_kw_match(spec_pc_name(v), "root"@));
            lemma_kw_self(spec_pc_name(v));
        },
        PseudoClass::FirstChild => {
            assert(!css_kw_match(spec_pc_name(v), "hover"@));
            assert(!css_kw_match(spec_pc_name(v), "active"@));
            assert(!css_kw_match(spec_pc_name(v), "focus"@));
            assert(!css_kw_match(spec_pc_name(v), "focus-within"@));
            assert(!css_kw_match(spec_pc_name(v), "focus-visible"@));
            assert(!css_kw_match(spec_pc_name(v), "enabled"@));
            assert(!css_kw_match(spec_pc_name(v), "disabled"@));
            assert(!css_kw_match(spec_pc_name(v), "checked"@));
            assert(!css_kw_match(spec_pc_name(v), "indeterminate"@));
            assert(!css_kw_match(spec_pc_name(v), "required"@));
            assert(!css_kw_match(spec_pc_name(v), "optional"@));
            assert(!css_kw_match(spec_pc_name(v), "valid"@));
            assert(!css_kw_match(spec_pc_name(v), "invalid"@));
            assert(!css_kw_match(spec_pc_name(v), "read-only"@));
            assert(!css_kw_match(spec_pc_name(v), "read-write"@));
            assert(!css_kw_match(spec_pc_name(v), "placeholder-shown"@));
            assert(!css_kw_match(spec_pc_name(v), "default"@));
            assert(!css_kw_match(spec_pc_name(v), "target"@));
            assert(!css_kw_match(spec_pc_name(v), "visited"@));
            assert(!css_kw_match(spec_pc_name(v), "link"@));
            assert(!css_kw_match(spec_pc_name(v), "any-link"@));
            assert(!css_kw_match(spec_pc_name(v), "fullscreen"@));
            assert(!css_kw_match(spec_pc_name(v), "modal"@));
            assert(!css_kw_match(spec_pc_name(v), "popover-open"@));
            assert(!css_kw_match(spec_pc_name(v), "defined"@));
            assert(!css_kw_match(spec_pc_name(v), "autofill"@));
            assert(!css_kw_match(spec_pc_name(v), "user-valid"@));
            assert(!css_kw_match(spec_pc_name(v), "user-invalid"@));
            assert(!css_kw_match(spec_pc_name(v), "root"@));
            assert(!css_kw_match(spec_pc_name(v), "empty"@));
            lemma_kw_self(spec_pc_name(v));
        },
        PseudoClass::LastChild => {
            assert(!css_kw_match(spec_pc_name(v), "hover"@));
            assert(!css_kw_match(spec_pc_name(v), "active"@));
            assert(!css_kw_match(spec_pc_name(v), "focus"@));
            assert(!css_kw_match(spec_pc_name(v), "focus-within"@));
            assert(!css_kw_match(spec_pc_name(v), "focus-visible"@));
            assert(!css_kw_match(spec_pc_name(v), "enabled"@));
            assert(!css_kw_match(spec_pc_name(v), "disabled"@));
            assert(!css_kw_match(spec_pc_name(v), "checked"@));
            assert(!css_kw_match(spec_pc_name(v), "indeterminate"@));
            assert(!css_kw_match(spec_pc_name(v), "required"@));
            assert(!css_kw_match(spec_pc_name(v), "optional"@));
            assert(!css_kw_match(spec_pc_name(v), "valid"@));
            assert(!css_kw_match(spec_pc_name(v), "invalid"@));
            assert(!css_kw_match(spec_pc_name(v), "read-only"@));
            lemma_kw_differs_at(spec_pc_name(v), "read-write"@, 0);
            assert(!css_kw_match(spec_pc_name(v), "placeholder-shown"@));
            assert(!css_kw_match(spec_pc_name(v), "default"@));
            assert(!css_kw_match(spec_pc_name(v), "target"@));
            assert(!css_kw_match(spec_pc_name(v), "visited"@));
            assert(!css_kw_match(spec_pc_name(v), "link"@));
            assert(!css_kw_match(spec_pc_name(v), "any-link"@));
            lemma_kw_differs_at(spec_pc_name(v), "fullscreen"@, 0);
            assert(!css_kw_match(spec_pc_name(v), "modal"@));
            assert(!css_kw_match(spec_pc_name(v), "popover-open"@));
            assert(!css_kw_match(spec_pc_name(v), "defined"@));
            assert(!css_kw_match(spec_pc_name(v), "autofill"@));
            lemma_kw_differs_at(spec_pc_name(v), "user-valid"@, 0);
            assert(!css_kw_match(spec_pc_name(v), "user-invalid"@));
            assert(!css_kw_match(spec_pc_name(v), "root"@));
            assert(!css_kw_match(spec_pc_name(v), "empty"@));
            assert(!css_kw_match(spec_pc_name(v), "first-child"@));
            lemma_kw_self(spec_pc_name(v));
        },
        PseudoClass::OnlyChild => {
            assert(!css_kw_match(spec_pc_name(v), "hover"@));
            assert(!css_kw_match(spec_pc_name(v), "active"@));
            assert(!css_kw_match(spec_pc_name(v), "focus"@));
            assert(!css_kw_match(spec_pc_name(v), "focus-within"@));
            assert(!css_kw_match(spec_pc_name(v), "focus-visible"@));
            assert(!css_kw_match(spec_pc_name(v), "enabled"@));
            assert(!css_kw_match(spec_pc_name(v), "disabled"@));
            assert(!css_kw_match(spec_pc_name(v), "checked"@));
            assert(!css_kw_match(spec_pc_name(v), "indeterminate"@));
            assert(!css_kw_match(spec_pc_name(v), "required"@));
            assert(!css_kw_match(spec_pc_name(v), "optional"@));
            assert(!css_kw_match(spec_pc_name(v), "valid"@));
            assert(!css_kw_match(spec_pc_name(v), "invalid"@));
            assert(!css_kw_match(spec_pc_name(v), "read-only"@));
            lemma_kw_differs_at(spec_pc_name(v), "read-write"@, 0);
            assert(!css_kw_match(spec_pc_name(v), "placeholder-shown"@));
            assert(!css_kw_match(spec_pc_name(v), "default"@));
            assert(!css_kw_match(spec_pc_name(v), "target"@));
            assert(!css_kw_match(spec_pc_name(v), "visited"@));
            assert(!css_kw_match(spec_pc_name(v), "link"@));
            assert(!css_kw_match(spec_pc_name(v), "any-link"@));
            lemma_kw_differs_at(spec_pc_name(v), "fullscreen"@, 0);
            assert(!css_kw_match(spec_pc_name(v), "modal"@));
            assert(!css_kw_match(spec_pc_name(v), "popover-open"@));
            assert(!css_kw_match(spec_pc_name(v), "defined"@));
            assert(!css_kw_match(spec_pc_name(v), "autofill"@));
            lemma_kw_differs_at(spec_pc_name(v), "user-valid"@, 0);
            assert(!css_kw_match(spec_pc_name(v), "user-invalid"@));
            assert(!css_kw_match(spec_pc_name(v), "root"@));
            assert(!css_kw_match(spec_pc_name(v), "empty"@));
            assert(!css_kw_match(spec_pc_name(v), "first-child"@));
            lemma_kw_differs_at(spec_pc_name(v), "last-child"@, 0);
            lemma_kw_self(spec_pc_name(v));
        },
        PseudoClass::FirstOfType => {
            assert(!css_kw_match(spec_pc_name(v), "hover"@));
            assert(!css_kw_match(spec_pc_name(v), "active"@));
            assert(!css_kw_match(spec_pc_name(v), "focus"@));
            assert(!css_kw_match(spec_pc_name(v), "focus-within"@));
            lemma_kw_differs_at(spec_pc_name(v), "focus-visible"@, 1);
            assert(!css_kw_match(spec_pc_name(v), "enabled"@));
            assert(!css_kw_match(spec_pc_name(v), "disabled"@));
            assert(!css_kw_match(spec_pc_name(v), "checked"@));
            lemma_kw_differs_at(spec_pc_name(v), "indeterminate"@, 0);
            assert(!css_kw_match(spec_pc_name(v), "required"@));
            assert(!css_kw_match(spec_pc_name(v), "optional"@));
            assert(!css_kw_match(spec_pc_name(v), "valid"@));
            assert(!css_kw_match(spec_pc_name(v), "invalid"@));
            assert(!css_kw_match(spec_pc_name(v), "read-only"@));
            assert(!css_kw_match(spec_pc_name(v), "read-write"@));
            assert(!css_kw_match(spec_pc_name(v), "placeholder-shown"@));
            assert(!css_kw_match(spec_pc_name(v), "default"@));
            assert(!css_kw_match(spec_pc_name(v), "target"@));
            assert(!css_kw_match(spec_pc_name(v), "visited"@));
            assert(!css_kw_match(spec_pc_name(v), "link"@));
            assert(!css_kw_match(spec_pc_name(v), "any-link"@));
            assert(!css_kw_match(spec_pc_name(v), "fullscreen"@));
            assert(!css_kw_match(spec_pc_name(v), "modal"@));
            assert(!css_kw_match(spec_pc_name(v), "popover-open"@));
            assert(!css_kw_match(spec_pc_name(v), "defined"@));
            assert(!css_kw_match(spec_pc_name(v), "autofill"@));
            assert(!css_kw_match(spec_pc_name(v), "user-valid"@));
            assert(!css_kw_match(spec_pc_name(v), "user-invalid"@));
            assert(!css_kw_match(spec_pc_name(v), "root"@));
            assert(!css_kw_match(spec_pc_name(v), "empty"@));
            assert(!css_kw_match(spec_pc_name(v), "first-child"@));
            assert(!css_kw_match(spec_pc_name(v), "last-child"@));
            assert(!css_kw_match(spec_pc_name(v), "only-child"@));
            lemma_kw_self(spec_pc_name(v));
        },
        PseudoClass::LastOfType => {
            assert(!css_kw_match(spec_pc_name(v), "hover"@));
            assert(!css_kw_match(spec_pc_name(v), "active"@));
            assert(!css_kw_match(spec_pc_name(v), "focus"@));
            lemma_kw_differs_at(spec_pc_name(v), "focus-within"@, 0);
            assert(!css_kw_match(spec_pc_name(v), "focus-visible"@));
            assert(!css_kw_match(spec_pc_name(v), "enabled"@));
            assert(!css_kw_match(spec_pc_name(v), "disabled"@));
            assert(!css_kw_match(spec_pc_name(v), "checked"@));
            assert(!css_kw_match(spec_pc_name(v), "indeterminate"@));
            assert(!css_kw_match(spec_pc_name(v), "required"@));
            assert(!css_kw_match(spec_pc_name(v), "optional"@));
            assert(!css_kw_match(spec_pc_name(v), "valid"@));
            assert(!css_kw_match(spec_pc_name(v), "invalid"@));
            assert(!css_kw_match(spec_pc_name(v), "read-only"@));
            assert(!css_kw_match(spec_pc_name(v), "read-write"@));
            assert(!css_kw_match(spec_pc_name(v), "placeholder-shown"@));
            assert(!css_kw_match(spec_pc_name(v), "default"@));
            assert(!css_kw_match(spec_pc_name(v), "target"@));
            assert(!css_kw_match(spec_pc_name(v), "visited"@));
            assert(!css_kw_match(spec_pc_name(v), "link"@));
            assert(!css_kw_match(spec_pc_name(v), "any-link"@));
            assert(!css_kw_match(spec_pc_name(v), "fullscreen"@));
            assert(!css_kw_match(spec_pc_name(v), "modal"@));
            lemma_kw_differs_at(spec_pc_name(v), "popover-open"@, 0);
            assert(!css_kw_match(spec_pc_name(v), "defined"@));
            assert(!css_kw_match(spec_pc_name(v), "autofill"@));
            assert(!css_kw_match(spec_pc_name(v), "user-valid"@));
            lemma_kw_differs_at(spec_pc_name(v), "user-invalid"@, 0);
            assert(!css_kw_match(spec_pc_name(v), "root"@));
            assert(!css_kw_match(spec_pc_name(v), "empty"@));
            assert(!css_kw_match(spec_pc_name(v), "first-child"@));
            assert(!css_kw_match(spec_pc_name(v), "last-child"@));
            assert(!css_kw_match(spec_pc_name(v), "only-child"@));
            assert(!css_kw_match(spec_pc_name(v), "first-of-type"@));
            lemma_kw_self(spec_pc_name(v));
        },
        PseudoClass::OnlyOfType => {
            assert(!css_kw_match(spec_pc_name(v), "hover"@));
            assert(!css_kw_match(spec_pc_name(v), "active"@));
            assert(!css_kw_match(spec_pc_name(v), "focus"@));
            lemma_kw_differs_at(spec_pc_name(v), "focus-within"@, 0);
            assert(!css_kw_match(spec_pc_name(v), "focus-visible"@));
            assert(!css_kw_match(spec_pc_name(v), "enabled"@));
            assert(!css_kw_match(spec_pc_name(v), "disabled"@));
            assert(!css_kw_match(spec_pc_name(v), "checked"@));
            assert(!css_kw_match(spec_pc_name(v), "indeterminate"@));
            assert(!css_kw_match(spec_pc_name(v), "required"@));
            assert(!css_kw_match(spec_pc_name(v), "optional"@));
            assert(!css_kw_match(spec_pc_name(v), "valid"@));
            assert(!css_kw_match(spec_pc_name(v), "invalid"@));
            assert(!css_kw_match(spec_pc_name(v), "read-only"@));
            assert(!css_kw_match(spec_pc_name(v), "read-write"@));
            assert(!css_kw_match(spec_pc_name(v), "placeholder-shown"@));
            assert(!css_kw_match(spec_pc_name(v), "default"@));
            assert(!css_kw_match(spec_pc_name(v), "target"@));
            assert(!css_kw_match(spec_pc_name(v), "visited"@));
            assert(!css_kw_match(spec_pc_name(v), "link"@));
            assert(!css_kw_match(spec_pc_name(v), "any-link"@));
            assert(!css_kw_match(spec_pc_name(v), "fullscreen"@));
            assert(!css_kw_match(spec_pc_name(v), "modal"@));
            lemma_kw_differs_at(spec_pc_name(v), "popover-open"@, 0);
            assert(!css_kw_match(spec_pc_name(v), "defined"@));
            assert(!css_kw_match(spec_pc_name(v), "autofill"@));
            assert(!css_kw_match(spec_pc_name(v), "user-valid"@));
            lemma_kw_differs_at(spec_pc_name(v), "user-invalid"@, 0);
            assert(!css_kw_match(spec_pc_name(v), "root"@));
            assert(!css_kw_match(spec_pc_name(v), "empty"@));
            assert(!css_kw_match(spec_pc_name(v), "first-child"@));
            assert(!css_kw_match(spec_pc_name(v), "last-child"@));
            assert(!css_kw_match(spec_pc_name(v), "only-child"@));
            assert(!css_kw_match(spec_pc_name(v), "first-of-type"@));
            lemma_kw_differs_at(spec_pc_name(v), "last-of-type"@, 0);
            lemma_kw_self(spec_pc_name(v));
        },
        PseudoClass::Scope => {
            lemma_kw_differs_at(spec_pc_name(v), "hover"@, 0);
            assert(!css_kw_match(spec_pc_name(v), "active"@));
            lemma_kw_differs_at(spec_pc_name(v), "focus"@, 0);
            assert(!css_kw_match(spec_pc_name(v), "focus-within"@));
            assert(!css_kw_match(spec_pc_name(v), "focus-visible"@));
            assert(!css_kw_match(spec_pc_name(v), "enabled"@));
            assert(!css_kw_match(spec_pc_name(v), "disabled"@));
            assert(!css_kw_match(spec_pc_name(v), "checked"@));
            assert(!css_kw_match(spec_pc_name(v), "indeterminate"@));
            assert(!css_kw_match(spec_pc_name(v), "required"@));
            assert(!css_kw_match(spec_pc_name(v), "optional"@));
            lemma_kw_differs_at(spec_pc_name(v), "valid"@, 0);
            assert(!css_kw_match(spec_pc_name(v), "invalid"@));
            assert(!css_kw_match(spec_pc_name(v), "read-only"@));
            assert(!css_kw_match(spec_pc_name(v), "read-write"@));
            assert(!css_kw_match(spec_pc_name(v), "placeholder-shown"@));
            assert(!css_kw_match(spec_pc_name(v), "default"@));
            assert(!css_kw_match(spec_pc_name(v), "target"@));
            assert(!css_kw_match(spec_pc_name(v), "visited"@));
            assert(!css_kw_match(spec_pc_name(v), "link"@));
            assert(!css_kw_match(spec_pc_name(v), "any-link"@));
            assert(!css_kw_match(spec_pc_name(v), "fullscreen"@));
            lemma_kw_differs_at(spec_pc_name(v), "modal"@, 0);
            assert(!css_kw_match(spec_pc_name(v), "popover-open"@));
            assert(!css_kw_match(spec_pc_name(v), "defined"@));
            assert(!css_kw_match(spec_pc_name(v), "autofill"@));
            assert(!css_kw_match(spec_pc_name(v), "user-valid"@));
            assert(!css_kw_match(spec_pc_name(v), "user-invalid"@));
            assert(!css_kw_match(spec_pc_name(v), "root"@));
            lemma_kw_differs_at(spec_pc_name(v), "empty"@, 0);
            assert(!css_kw_match(spec_pc_name(v), "first-child"@));
            assert(!css_kw_match(spec_pc_name(v), "last-child"@));
            assert(!css_kw_match(spec_pc_name(v), "only-child"@));
            assert(!css_kw_match(spec_pc_name(v), "first-of-type"@));
            assert(!css_kw_match(spec_pc_name(v), "last-of-type"@));
            assert(!css_kw_match(spec_pc_name(v), "only-of-type"@));
            lemma_kw_self(spec_pc_name(v));
        },
        PseudoClass::Playing => {
            assert(!css_kw_match(spec_pc_name(v), "hover"@));
            assert(!css_kw_match(spec_pc_name(v), "active"@));
            assert(!css_kw_match(spec_pc_name(v), "focus"@));
            assert(!css_kw_match(spec_pc_name(v), "focus-within"@));
            assert(!css_kw_match(spec_pc_name(v), "focus-visible"@));
            lemma_kw_differs_at(spec_pc_name(v), "enabled"@, 0);
            assert(!css_kw_match(spec_pc_name(v), "disabled"@));
            lemma_kw_differs_at(spec_pc_name(v), "checked"@, 0);
            assert(!css_kw_match(spec_pc_name(v), "indeterminate"@));
            assert(!css_kw_match(spec_pc_name(v), "required"@));
            assert(!css_kw_match(spec_pc_name(v), "optional"@));
            assert(!css_kw_match(spec_pc_name(v), "valid"@));
            lemma_kw_differs_at(spec_pc_name(v), "invalid"@, 0);
            assert(!css_kw_match(spec_pc_name(v), "read-only"@));
            assert(!css_kw_match(spec_pc_name(v), "read-write"@));
            assert(!css_kw_match(spec_pc_name(v), "placeholder-shown"@));
            lemma_kw_differs_at(spec_pc_name(v), "default"@, 0);
            assert(!css_kw_match(spec_pc_name(v), "target"@));
            lemma_kw_differs_at(spec_pc_name(v), "visited"@, 0);
            assert(!css_kw_match(spec_pc_name(v), "link"@));
            assert(!css_kw_match(spec_pc_name(v), "any-link"@));
            assert(!css_kw_match(spec_pc_name(v), "fullscreen"@));
            assert(!css_kw_match(spec_pc_name(v), "modal"@));
            assert(!css_kw_match(spec_pc_name(v), "popover-open"@));
            lemma_kw_differs_at(spec_pc_name(v), "defined"@, 0);
            assert(!css_kw_match(spec_pc_name(v), "autofill"@));
            assert(!css_kw_match(spec_pc_name(v), "user-valid"@));
            assert(!css_kw_match(spec_pc_name(v), "user-invalid"@));
            assert(!css_kw_match(spec_pc_name(v), "root"@));
            assert(!css_kw_match(spec_pc_name(v), "empty"@));
            assert(!css_kw_match(spec_pc_name(v), "first-child"@));
            assert(!css_kw_match(spec_pc_name(v), "last-child"@));
            assert(!css_kw_match(spec_pc_name(v), "only-child"@));
            assert(!css_kw_match(spec_pc_name(v), "first-of-type"@));
            assert(!css_kw_match(spec_pc_name(v), "last-of-type"@));
            assert(!css_kw_match(spec_pc_name(v), "only-of-type"@));
            assert(!css_kw_match(spec_pc_name(v), "scope"@));
            lemma_kw_self(spec_pc_name(v));
        },
        PseudoClass::Paused => {
            assert(!css_kw_match(spec_pc_name(v), "hover"@));
            lemma_kw_differs_at(spec_pc_name(v), "active"@, 0);
            assert(!css_kw_match(spec_pc_name(v), "focus"@));
            assert(!css_kw_match(spec_pc_name(v), "focus-within"@));
            assert(!css_kw_match(spec_pc_name(v), "focus-visible"@));
            assert(!css_kw_match(spec_pc_name(v), "enabled"@));
            assert(!css_kw_match(spec_pc_name(v), "disabled"@));
            assert(!css_kw_match(spec_pc_name(v), "checked"@));
            assert(!css_kw_match(spec_pc_name(v), "indeterminate"@));
            assert(!css_kw_match(spec_pc_name(v), "required"@));
            assert(!css_kw_match(spec_pc_name(v), "optional"@));
            assert(!css_kw_match(spec_pc_name(v), "valid"@));
            assert(!css_kw_match(spec_pc_name(v), "invalid"@));
            assert(!css_kw_match(spec_pc_name(v), "read-only"@));
            assert(!css_kw_match(spec_pc_name(v), "read-write"@));
            assert(!css_kw_match(spec_pc_name(v), "placeholder-shown"@));
            assert(!css_kw_match(spec_pc_name(v), "default"@));
            lemma_kw_differs_at(spec_pc_name(v), "target"@, 0);
            assert(!css_kw_match(spec_pc_name(v), "visited"@));
            assert(!css_kw_match(spec_pc_name(v), "link"@));
            assert(!css_kw_match(spec_pc_name(v), "any-link"@));
            assert(!css_kw_match(spec_pc_name(v), "fullscreen"@));
            assert(!css_kw_match(spec_pc_name(v), "modal"@));
            assert(!css_kw_match(spec_pc_name(v), "popover-open"@));
            assert(!css_kw_match(spec_pc_name(v), "defined"@));
            assert(!css_kw_match(spec_pc_name(v), "autofill"@));
            assert(!css_kw_match(spec_pc_name(v), "user-valid"@));
            assert(!css_kw_match(spec_pc_name(v), "user-invalid"@));
            assert(!css_kw_match(spec_pc_name(v), "root"@));
            assert(!css_kw_match(spec_pc_name(v), "empty"@));
            assert(!css_kw_match(spec_pc_name(v), "first-child"@));
            assert(!css_kw_match(spec_pc_name(v), "last-child"@));
            assert(!css_kw_match(spec_pc_name(v), "only-child"@));
            assert(!css_kw_match(spec_pc_name(v), "first-of-type"@));
            assert(!css_kw_match(spec_pc_name(v), "last-of-type"@));
            assert(!css_kw_match(spec_pc_name(v), "only-of-type"@));
            assert(!css_kw_match(spec_pc_name(v), "scope"@));
            assert(!css_kw_match(spec_pc_name(v), "playing"@));
            lemma_kw_self(spec_pc_name(v));
        },
        PseudoClass::Seeking => {
            assert(!css_kw_match(spec_pc_name(v), "hover"@));
            assert(!css_kw_match(spec_pc_name(v), "active"@));
            assert(!css_kw_match(spec_pc_name(v), "focus"@));
            assert(!css_kw_match(spec_pc_name(v), "focus-within"@));
            assert(!css_kw_match(spec_pc_name(v), "focus-visible"@));
            lemma_kw_differs_at(spec_pc_name(v), "enabled"@, 0);
            assert(!css_kw_match(spec_pc_name(v), "disabled"@));
            lemma_kw_differs_at(spec_pc_name(v), "checked"@, 0);
            assert(!css_kw_match(spec_pc_name(v), "indeterminate"@));
            assert(!css_kw_match(spec_pc_name(v), "required"@));
            assert(!css_kw_match(spec_pc_name(v), "optional"@));
            assert(!css_kw_match(spec_pc_name(v), "valid"@));
            lemma_kw_differs_at(spec_pc_name(v), "invalid"@, 0);
            assert(!css_kw_match(spec_pc_name(v), "read-only"@));
            assert(!css_kw_match(spec_pc_name(v), "read-write"@));
            assert(!css_kw_match(spec_pc_name(v), "placeholder-shown"@));
            lemma_kw_differs_at(spec_pc_name(v), "default"@, 0);
            assert(!css_kw_match(spec_pc_name(v), "target"@));
            lemma_kw_differs_at(spec_pc_name(v), "visited"@, 0);
            assert(!css_kw_match(spec_pc_name(v), "link"@));
            assert(!css_kw_match(spec_pc_name(v), "any-link"@));
            assert(!css_kw_match(spec_pc_name(v), "fullscreen"@));
            assert(!css_kw_match(spec_pc_name(v), "modal"@));
            assert(!css_kw_match(spec_pc_name(v), "popover-open"@));
            lemma_kw_differs_at(spec_pc_name(v), "defined"@, 0);
            assert(!css_kw_match(spec_pc_name(v), "autofill"@));
            assert(!css_kw_match(spec_pc_name(v), "user-valid"@));
            assert(!css_kw_match(spec_pc_name(v), "user-invalid"@));
            assert(!css_kw_match(spec_pc_name(v), "root"@));
            assert(!css_kw_match(spec_pc_name(v), "empty"@));
            assert(!css_kw_match(spec_pc_name(v), "first-child"@));
            assert(!css_kw_match(spec_pc_name(v), "last-child"@));
            assert(!css_kw_match(spec_pc_name(v), "only-child"@));
            assert(!css_kw_match(spec_pc_name(v), "first-of-type"@));
            assert(!css_kw_match(spec_pc_name(v), "last-of-type"@));
            assert(!css_kw_match(spec_pc_name(v), "only-of-type"@));
            assert(!css_kw_match(spec_pc_name(v), "scope"@));
            lemma_kw_differs_at(spec_pc_name(v), "playing"@, 0);
            assert(!css_kw_match(spec_pc_name(v), "paused"@));
            lemma_kw_self(spec_pc_name(v));
        },
        PseudoClass::Buffering => {
            assert(!css_kw_match(spec_pc_name(v), "hover"@));
            assert(!css_kw_match(spec_pc_name(v), "active"@));
            assert(!css_kw_match(spec_pc_name(v), "focus"@));
            assert(!css_kw_match(spec_pc_name(v), "focus-within"@));
            assert(!css_kw_match(spec_pc_name(v), "focus-visible"@));
            assert(!css_kw_match(spec_pc_name(v), "enabled"@));
            assert(!css_kw_match(spec_pc_name(v), "disabled"@));
            assert(!css_kw_match(spec_pc_name(v), "checked"@));
            assert(!css_kw_match(spec_pc_name(v), "indeterminate"@));
            assert(!css_kw_match(spec_pc_name(v), "required"@));
            assert(!css_kw_match(spec_pc_name(v), "optional"@));
            assert(!css_kw_match(spec_pc_name(v), "valid"@));
            assert(!css_kw_match(spec_pc_name(v), "invalid"@));
            lemma_kw_differs_at(spec_pc_name(v), "read-only"@, 0);
            assert(!css_kw_match(spec_pc_name(v), "read-write"@));
            assert(!css_kw_match(spec_pc_name(v), "placeholder-shown"@));
            assert(!css_kw_match(spec_pc_name(v), "default"@));
            assert(!css_kw_match(spec_pc_name(v), "target"@));
            assert(!css_kw_match(spec_pc_name(v), "visited"@));
            assert(!css_kw_match(spec_pc_name(v), "link"@));
            assert(!css_kw_match(spec_pc_name(v), "any-link"@));
            assert(!css_kw_match(spec_pc_name(v), "fullscreen"@));
            assert(!css_kw_match(spec_pc_name(v), "modal"@));
            assert(!css_kw_match(spec_pc_name(v), "popover-open"@));
            assert(!css_kw_match(spec_pc_name(v), "defined"@));
            assert(!css_kw_match(spec_pc_name(v), "autofill"@));
            assert(!css_kw_match(spec_pc_name(v), "user-valid"@));
            assert(!css_kw_match(spec_pc_name(v), "user-invalid"@));
            assert(!css_kw_match(spec_pc_name(v), "root"@));
            assert(!css_kw_match(spec_pc_name(v), "empty"@));
            assert(!css_kw_match(spec_pc_name(v), "first-child"@));
            assert(!css_kw_match(spec_pc_name(v), "last-child"@));
            assert(!css_kw_match(spec_pc_name(v), "only-child"@));
            assert(!css_kw_match(spec_pc_name(v), "first-of-type"@));
            assert(!css_kw_match(spec_pc_name(v), "last-of-type"@));
            assert(!css_kw_match(spec_pc_name(v), "only-of-type"@));
            assert(!css_kw_match(spec_pc_name(v), "scope"@));
            assert(!css_kw_match(spec_pc_name(v), "playing"@));
            assert(!css_kw_match(spec_pc_name(v), "paused"@));
            assert(!css_kw_match(spec_pc_name(v), "seeking"@));
            lemma_kw_self(spec_pc_name(v));
        },
        PseudoClass::Stalled => {
            assert(!css_kw_match(spec_pc_name(v), "hover"@));
            assert(!css_kw_match(spec_pc_name(v), "active"@));
            assert(!css_kw_match(spec_pc_name(v), "focus"@));
            assert(!css_kw_match(spec_pc_name(v), "focus-within"@));
            assert(!css_kw_match(spec_pc_name(v), "focus-visible"@));
            lemma_kw_differs_at(spec_pc_name(v), "enabled"@, 0);
            assert(!css_kw_match(spec_pc_name(v), "disabled"@));
            lemma_kw_differs_at(spec_pc_name(v), "checked"@, 0);
            assert(!css_kw_match(spec_pc_name(v), "indeterminate"@));
            assert(!css_kw_match(spec_pc_name(v), "required"@));
            assert(!css_kw_match(spec_pc_name(v), "optional"@));
            assert(!css_kw_match(spec_pc_name(v), "valid"@));
            lemma_kw_differs_at(spec_pc_name(v), "invalid"@, 0);
            assert(!css_kw_match(spec_pc_name(v), "read-only"@));
            assert(!css_kw_match(spec_pc_name(v), "read-write"@));
            assert(!css_kw_match(spec_pc_name(v), "placeholder-shown"@));
            lemma_kw_differs_at(spec_pc_name(v), "default"@, 0);
            assert(!css_kw_match(spec_pc_name(v), "target"@));
            lemma_kw_differs_at(spec_pc_name(v), "visited"@, 0);
            assert(!css_kw_match(spec_pc_name(v), "link"@));
            assert(!css_kw_match(spec_pc_name(v), "any-link"@));
            assert(!css_kw_match(spec_pc_name(v), "fullscreen"@));
            assert(!css_kw_match(spec_pc_name(v), "modal"@));
            assert(!css_kw_match(spec_pc_name(v), "popover-open"@));
            lemma_kw_differs_at(spec_pc_name(v), "defined"@, 0);
            assert(!css_kw_match(spec_pc_name(v), "autofill"@));
            assert(!css_kw_match(spec_pc_name(v), "user-valid"@));
            assert(!css_kw_match(spec_pc_name(v), "user-invalid"@));
            assert(!css_kw_match(spec_pc_name(v), "root"@));
            assert(!css_kw_match(spec_pc_name(v), "empty"@));
            assert(!css_kw_match(spec_pc_name(v), "first-child"@));
            assert(!css_kw_match(spec_pc_name(v), "last-child"@));
            assert(!css_kw_match(spec_pc_name(v), "only-child"@));
            assert(!css_kw_match(spec_pc_name(v), "first-of-type"@));
            assert(!css_kw_match(spec_pc_name(v), "last-of-type"@));
            assert(!css_kw_match(spec_pc_name(v), "only-of-type"@));
            assert(!css_kw_match(spec_pc_name(v), "scope"@));
            lemma_kw_differs_at(spec_pc_name(v), "playing"@, 0);
            assert(!css_kw_match(spec_pc_name(v), "paused"@));
            lemma_kw_differs_at(spec_pc_name(v), "seeking"@, 1);
            assert(!css_kw_match(spec_pc_name(v), "buffering"@));
            lemma_kw_self(spec_pc_name(v));
        },
        PseudoClass::Muted => {
            lemma_kw_differs_at(spec_pc_name(v), "hover"@, 0);
            assert(!css_kw_match(spec_pc_name(v), "active"@));
            lemma_kw_differs_at(spec_pc_name(v), "focus"@, 0);
            assert(!css_kw_match(spec_pc_name(v), "focus-within"@));
            assert(!css_kw_match(spec_pc_name(v), "focus-visible"@));
            assert(!css_kw_match(spec_pc_name(v), "enabled"@));
            assert(!css_kw_match(spec_pc_name(v), "disabled"@));
            assert(!css_kw_match(spec_pc_name(v), "checked"@));
            assert(!css_kw_match(spec_pc_name(v), "indeterminate"@));
            assert(!css_kw_match(spec_pc_name(v), "required"@));
            assert(!css_kw_match(spec_pc_name(v), "optional"@));
            lemma_kw_differs_at(spec_pc_name(v), "valid"@, 0);
            assert(!css_kw_match(spec_pc_name(v), "invalid"@));
            assert(!css_kw_match(spec_pc_name(v), "read-only"@));
            assert(!css_kw_match(spec_pc_name(v), "read-write"@));
            assert(!css_kw_match(spec_pc_name(v), "placeholder-shown"@));
            assert(!css_kw_match(spec_pc_name(v), "default"@));
            assert(!css_kw_match(spec_pc_name(v), "target"@));
            assert(!css_kw_match(spec_pc_name(v), "visited"@));
            assert(!css_kw_match(spec_pc_name(v), "link"@));
            assert(!css_kw_match(spec_pc_name(v), "any-link"@));
            assert(!css_kw_match(spec_pc_name(v), "fullscreen"@));
            lemma_kw_differs_at(spec_pc_name(v), "modal"@, 1);
            assert(!css_kw_match(spec_pc_name(v), "popover-open"@));
            assert(!css_kw_match(spec_pc_name(v), "defined"@));
            assert(!css_kw_match(spec_pc_name(v), "autofill"@));
            assert(!css_kw_match(spec_pc_name(v), "user-valid"@));
            assert(!css_kw_match(spec_pc_name(v), "user-invalid"@));
            assert(!css_kw_match(spec_pc_name(v), "root"@));
            lemma_kw_differs_at(spec_pc_name(v), "empty"@, 0);
            assert(!css_kw_match(spec_pc_name(v), "first-child"@));
            assert(!css_kw_match(spec_pc_name(v), "last-child"@));
            assert(!css_kw_match(spec_pc_name(v), "only-child"@));
            assert(!css_kw_match(spec_pc_name(v), "first-of-type"@));
            assert(!css_kw_match(spec_pc_name(v), "last-of-type"@));
            assert(!css_kw_match(spec_pc_name(v), "only-of-type"@));
            lemma_kw_differs_at(spec_pc_name(v), "scope"@, 0);
            assert(!css_kw_match(spec_pc_name(v), "playing"@));
            assert(!css_kw_match(spec_pc_name(v), "paused"@));
            assert(!css_kw_match(spec_pc_name(v), "seeking"@));
            assert(!css_kw_match(spec_pc_name(v), "buffering"@));
            assert(!css_kw_match(spec_pc_name(v), "stalled"@));
            lemma_kw_self(spec_pc_name(v));
        },
        PseudoClass::VolumeLocked => {
            assert(!css_kw_match(spec_pc_name(v), "hover"@));
            assert(!css_kw_match(spec_pc_name(v), "active"@));
            assert(!css_kw_match(spec_pc_name(v), "focus"@));
            assert(!css_kw_match(spec_pc_name(v), "focus-within"@));
            lemma_kw_differs_at(spec_pc_name(v), "focus-visible"@, 0);
            assert(!css_kw_match(spec_pc_name(v), "enabled"@));
            assert(!css_kw_match(spec_pc_name(v), "disabled"@));
            assert(!css_kw_match(spec_pc_name(v), "checked"@));
            lemma_kw_differs_at(spec_pc_name(v), "indeterminate"@, 0);
            assert(!css_kw_match(spec_pc_name(v), "required"@));
            assert(!css_kw_match(spec_pc_name(v), "optional"@));
            assert(!css_kw_match(spec_pc_name(v), "valid"@));
            assert(!css_kw_match(spec_pc_name(v), "invalid"@));
            assert(!css_kw_match(spec_pc_name(v), "read-only"@));
            assert(!css_kw_match(spec_pc_name(v), "read-write"@));
            assert(!css_kw_match(spec_pc_name(v), "placeholder-shown"@));
            assert(!css_kw_match(spec_pc_name(v), "default"@));
            assert(!css_kw_match(spec_pc_name(v), "target"@));
            assert(!css_kw_match(spec_pc_name(v), "visited"@));
            assert(!css_kw_match(spec_pc_name(v), "link"@));
            assert(!css_kw_match(spec_pc_name(v), "any-link"@));
            assert(!css_kw_match(spec_pc_name(v), "fullscreen"@));
            assert(!css_kw_match(spec_pc_name(v), "modal"@));
            assert(!css_kw_match(spec_pc_name(v), "popover-open"@));
            assert(!css_kw_match(spec_pc_name(v), "defined"@));
            assert(!css_kw_match(spec_pc_name(v), "autofill"@));
            assert(!css_kw_match(spec_pc_name(v), "user-valid"@));
            assert(!css_kw_match(spec_pc_name(v), "user-invalid"@));
            assert(!css_kw_match(spec_pc_name(v), "root"@));
            assert(!css_kw_match(spec_pc_name(v), "empty"@));
            assert(!css_kw_match(spec_pc_name(v), "first-child"@));
            assert(!css_kw_match(spec_pc_name(v), "last-child"@));
            assert(!css_kw_match(spec_pc_name(v), "only-child"@));
            lemma_kw_differs_at(spec_pc_name(v), "first-of-type"@, 0);
            assert(!css_kw_match(spec_pc_name(v), "last-of-type"@));
            assert(!css_kw_match(spec_pc_name(v), "only-of-type"@));
            assert(!css_kw_match(spec_pc_name(v), "scope"@));
            assert(!css_kw_match(spec_pc_name(v), "playing"@));
            assert(!css_kw_match(spec_pc_name(v), "paused"@));
            assert(!css_kw_match(spec_pc_name(v), "seeking"@));
            assert(!css_kw_match(spec_pc_name(v), "buffering"@));
            assert(!css_kw_match(spec_pc_name(v), "stalled"@));
            assert(!css_kw_match(spec_pc_name(v), "muted"@));
            lemma_kw_self(spec_pc_name(v));
        },
        PseudoClass::Blank => {
            lemma_kw_differs_at(spec_pc_name(v), "hover"@, 0);
            assert(!css_kw_match(spec_pc_name(v), "active"@));
            lemma_kw_differs_at(spec_pc_name(v), "focus"@, 0);
            assert(!css_kw_match(spec_pc_name(v), "focus-within"@));
            assert(!css_kw_match(spec_pc_name(v), "focus-visible"@));
            assert(!css_kw_match(spec_pc_name(v), "enabled"@));
            assert(!css_kw_match(spec_pc_name(v), "disabled"@));
            assert(!css_kw_match(spec_pc_name(v), "checked"@));
            assert(!css_kw_match(spec_pc_name(v), "indeterminate"@));
            assert(!css_kw_match(spec_pc_name(v), "required"@));
            assert(!css_kw_match(spec_pc_name(v), "optional"@));
            lemma_kw_differs_at(spec_pc_name(v), "valid"@, 0);
            assert(!css_kw_match(spec_pc_name(v), "invalid"@));
            assert(!css_kw_match(spec_pc_name(v), "read-only"@));
            assert(!css_kw_match(spec_pc_name(v), "read-write"@));
            assert(!css_kw_match(spec_pc_name(v), "placeholder-shown"@));
            assert(!css_kw_match(spec_pc_name(v), "default"@));
            assert(!css_kw_match(spec_pc_name(v), "target"@));
            assert(!css_kw_match(spec_pc_name(v), "visited"@));
            assert(!css_kw_match(spec_pc_name(v), "link"@));
            assert(!css_kw_match(spec_pc_name(v), "any-link"@));
            assert(!css_kw_match(spec_pc_name(v), "fullscreen"@));
            lemma_kw_differs_at(spec_pc_name(v), "modal"@, 0);
            assert(!css_kw_match(spec_pc_name(v), "popover-open"@));
            assert(!css_kw_match(spec_pc_name(v), "defined"@));
            assert(!css_kw_match(spec_pc_name(v), "autofill"@));
            assert(!css_kw_match(spec_pc_name(v), "user-valid"@));
            assert(!css_kw_match(spec_pc_name(v), "user-invalid"@));
            assert(!css_kw_match(spec_pc_name(v), "root"@));
            lemma_kw_differs_at(spec_pc_name(v), "empty"@, 0);
            assert(!css_kw_match(spec_pc_name(v), "first-child"@));
            assert(!css_kw_match(spec_pc_name(v), "last-child"@));
            assert(!css_kw_match(spec_pc_name(v), "only-child"@));
            assert(!css_kw_match(spec_pc_name(v), "first-of-type"@));
            assert(!css_kw_match(spec_pc_name(v), "last-of-type"@));
            assert(!css_kw_match(spec_pc_name(v), "only-of-type"@));
            lemma_kw_differs_at(spec_pc_name(v), "scope"@, 0);
            assert(!css_kw_match(spec_pc_name(v), "playing"@));
            assert(!css_kw_match(spec_pc_name(v), "paused"@));
            assert(!css_kw_match(spec_pc_name(v), "seeking"@));
            assert(!css_kw_match(spec_pc_name(v), "buffering"@));
            assert(!css_kw_match(spec_pc_name(v), "stalled"@));
            lemma_kw_differs_at(spec_pc_name(v), "muted"@, 0);
            assert(!css_kw_match(spec_pc_name(v), "volume-locked"@));
            lemma_kw_self(spec_pc_name(v));
        },
        PseudoClass::InRange => {
            assert(!css_kw_match(spec_pc_name(v), "hover"@));
            assert(!css_kw_match(spec_pc_name(v), "active"@));
            assert(!css_kw_match(spec_pc_name(v), "focus"@));
            assert(!css_kw_match(spec_pc_name(v), "focus-within"@));
            assert(!css_kw_match(spec_pc_name(v), "focus-visible"@));
            assert(!css_kw_match(spec_pc_name(v), "enabled"@));
            lemma_kw_differs_at(spec_pc_name(v), "disabled"@, 0);
            assert(!css_kw_match(spec_pc_name(v), "checked"@));
            assert(!css_kw_match(spec_pc_name(v), "indeterminate"@));
            lemma_kw_differs_at(spec_pc_name(v), "required"@, 0);
            lemma_kw_differs_at(spec_pc_name(v), "optional"@, 0);
            assert(!css_kw_match(spec_pc_name(v), "valid"@));
            assert(!css_kw_match(spec_pc_name(v), "invalid"@));
            assert(!css_kw_match(spec_pc_name(v), "read-only"@));
            assert(!css_kw_match(spec_pc_name(v), "read-write"@));
            assert(!css_kw_match(spec_pc_name(v), "placeholder-shown"@));
            assert(!css_kw_match(spec_pc_name(v), "default"@));
            assert(!css_kw_match(spec_pc_name(v), "target"@));
            assert(!css_kw_match(spec_pc_name(v), "visited"@));
            assert(!css_kw_match(spec_pc_name(v), "link"@));
            lemma_kw_differs_at(spec_pc_name(v), "any-link"@, 0);
            assert(!css_kw_match(spec_pc_name(v), "fullscreen"@));
            assert(!css_kw_match(spec_pc_name(v), "modal"@));
            assert(!css_kw_match(spec_pc_name(v), "popover-open"@));
            assert(!css_kw_match(spec_pc_name(v), "defined"@));
            lemma_kw_differs_at(spec_pc_name(v), "autofill"@, 0);
            assert(!css_kw_match(spec_pc_name(v), "user-valid"@));
            assert(!css_kw_match(spec_pc_name(v), "user-invalid"@));
            assert(!css_kw_match(spec_pc_name(v), "root"@));
            assert(!css_kw_match(spec_pc_name(v), "empty"@));
            assert(!css_kw_match(spec_pc_name(v), "first-child"@));
            assert(!css_kw_match(spec_pc_name(v), "last-child"@));
            assert(!css_kw_match(spec_pc_name(v), "only-child"@));
            assert(!css_kw_match(spec_pc_name(v), "first-of-type"@));
            assert(!css_kw_match(spec_pc_name(v), "last-of-type"@));
            assert(!css_kw_match(spec_pc_name(v), "only-of-type"@));
            assert(!css_kw_match(spec_pc_name(v), "scope"@));
            assert(!css_kw_match(spec_pc_name(v), "playing"@));
            assert(!css_kw_match(spec_pc_name(v), "paused"@));
            assert(!css_kw_match(spec_pc_name(v), "seeking"@));
            assert(!css_kw_match(spec_pc_name(v), "buffering"@));
            assert(!css_kw_match(spec_pc_name(v), "stalled"@));
            assert(!css_kw_match(spec_pc_name(v), "muted"@));
            assert(!css_kw_match(spec_pc_name(v), "volume-locked"@));
            assert(!css_kw_match(spec_pc_name(v), "blank"@));
            lemma_kw_self(spec_pc_name(v));
        },
        PseudoClass::OutOfRange => {
            assert(!css_kw_match(spec_pc_name(v), "hover"@));
            assert(!css_kw_match(spec_pc_name(v), "active"@));
            assert(!css_kw_match(spec_pc_name(v), "focus"@));
            lemma_kw_differs_at(spec_pc_name(v), "focus-within"@, 0);
            assert(!css_kw_match(spec_pc_name(v), "focus-visible"@));
            assert(!css_kw_match(spec_pc_name(v), "enabled"@));
            assert(!css_kw_match(spec_pc_name(v), "disabled"@));
            assert(!css_kw_match(spec_pc_name(v), "checked"@));
            assert(!css_kw_match(spec_pc_name(v), "indeterminate"@));
            assert(!css_kw_match(spec_pc_name(v), "required"@));
            assert(!css_kw_match(spec_pc_name(v), "optional"@));
            assert(!css_kw_match(spec_pc_name(v), "valid"@));
            assert(!css_kw_match(spec_pc_name(v), "invalid"@));
            assert(!css_kw_match(spec_pc_name(v), "read-only"@));
            assert(!css_kw_match(spec_pc_name(v), "read-write"@));
            assert(!css_kw_match(spec_pc_name(v), "placeholder-shown"@));
            assert(!css_kw_match(spec_pc_name(v), "default"@));
            assert(!css_kw_match(spec_pc_name(v), "target"@));
            assert(!css_kw_match(spec_pc_name(v), "visited"@));
            assert(!css_kw_match(spec_pc_name(v), "link"@));
            assert(!css_kw_match(spec_pc_name(v), "any-link"@));
            assert(!css_kw_match(spec_pc_name(v), "fullscreen"@));
            assert(!css_kw_match(spec_pc_name(v), "modal"@));
            lemma_kw_differs_at(spec_pc_name(v), "popover-open"@, 0);
            assert(!css_kw_match(spec_pc_name(v), "defined"@));
            assert(!css_kw_match(spec_pc_name(v), "autofill"@));
            assert(!css_kw_match(spec_pc_name(v), "user-valid"@));
            lemma_kw_differs_at(spec_pc_name(v), "user-invalid"@, 0);
            assert(!css_kw_match(spec_pc_name(v), "root"@));
            assert(!css_kw_match(spec_pc_name(v), "empty"@));
            assert(!css_kw_match(spec_pc_name(v), "first-child"@));
            assert(!css_kw_match(spec_pc_name(v), "last-child"@));
            assert(!css_kw_match(spec_pc_name(v), "only-child"@));
            assert(!css_kw_match(spec_pc_name(v), "first-of-type"@));
            lemma_kw_differs_at(spec_pc_name(v), "last-of-type"@, 0);
            lemma_kw_differs_at(spec_pc_name(v), "only-of-type"@, 1);
            assert(!css_kw_match(spec_pc_name(v), "scope"@));
            assert(!css_kw_match(spec_pc_name(v), "playing"@));
            assert(!css_kw_match(spec_pc_name(v), "paused"@));
            assert(!css_kw_match(spec_pc_name(v), "seeking"@));
            assert(!css_kw_match(spec_pc_name(v), "buffering"@));
            assert(!css_kw_match(spec_pc_name(v), "stalled"@));
            assert(!css_kw_match(spec_pc_name(v), "muted"@));
            assert(!css_kw_match(spec_pc_name(v), "volume-locked"@));
            assert(!css_kw_match(spec_pc_name(v), "blank"@));
            assert(!css_kw_match(spec_pc_name(v), "in-range"@));
            lemma_kw_self(spec_pc_name(v));
        },
        PseudoClass::Open => {
            assert(!css_kw_match(spec_pc_name(v), "hover"@));
            assert(!css_kw_match(spec_pc_name(v), "active"@));
            assert(!css_kw_match(spec_pc_name(v), "focus"@));
            assert(!css_kw_match(spec_pc_name(v), "focus-within"@));
            assert(!css_kw_match(spec_pc_name(v), "focus-visible"@));
            assert(!css_kw_match(spec_pc_name(v), "enabled"@));
            assert(!css_kw_match(spec_pc_name(v), "disabled"@));
            assert(!css_kw_match(spec_pc_name(v), "checked"@));
            assert(!css_kw_match(spec_pc_name(v), "indeterminate"@));
            assert(!css_kw_match(spec_pc_name(v), "required"@));
            assert(!css_kw_match(spec_pc_name(v), "optional"@));
            assert(!css_kw_match(spec_pc_name(v), "valid"@));
            assert(!css_kw_match(spec_pc_name(v), "invalid"@));
            assert(!css_kw_match(spec_pc_name(v), "read-only"@));
            assert(!css_kw_match(spec_pc_name(v), "read-write"@));
            assert(!css_kw_match(spec_pc_name(v), "placeholder-shown"@));
            assert(!css_kw_match(spec_pc_name(v), "default"@));
            assert(!css_kw_match(spec_pc_name(v), "target"@));
            assert(!css_kw_match(spec_pc_name(v), "visited"@));
            lemma_kw_differs_at(spec_pc_name(v), "link"@, 0);
            assert(!css_kw_match(spec_pc_name(v), "any-link"@));
            assert(!css_kw_match(spec_pc_name(v), "fullscreen"@));
            assert(!css_kw_match(spec_pc_name(v), "modal"@));
            assert(!css_kw_match(spec_pc_name(v), "popover-open"@));
            assert(!css_kw_match(spec_pc_name(v), "defined"@));
            assert(!css_kw_match(spec_pc_name(v), "autofill"@));
            assert(!css_kw_match(spec_pc_name(v), "user-valid"@));
            assert(!css_kw_match(spec_pc_name(v), "user-invalid"@));
            lemma_kw_differs_at(spec_pc_name(v), "root"@, 0);
            assert(!css_kw_match(spec_pc_name(v), "empty"@));
            assert(!css_kw_match(spec_pc_name(v), "first-child"@));
            assert(!css_kw_match(spec_pc_name(v), "last-child"@));
            assert(!css_kw_match(spec_pc_name(v), "only-child"@));
            assert(!css_kw_match(spec_pc_name(v), "first-of-type"@));
            assert(!css_kw_match(spec_pc_name(v), "last-of-type"@));
            assert(!css_kw_match(spec_pc_name(v), "only-of-type"@));
            assert(!css_kw_match(spec_pc_name(v), "scope"@));
            assert(!css_kw_match(spec_pc_name(v), "playing"@));
            assert(!css_kw_match(spec_pc_name(v), "paused"@));
            assert(!css_kw_match(spec_pc_name(v), "seeking"@));
            assert(!css_kw_match(spec_pc_name(v), "buffering"@));
            assert(!css_kw_match(spec_pc_name(v), "stalled"@));
            assert(!css_kw_match(spec_pc_name(v), "muted"@));
            assert(!css_kw_match(spec_pc_name(v), "volume-locked"@));
            assert(!css_kw_match(spec_pc_name(v), "blank"@));
            assert(!css_kw_match(spec_pc_name(v), "in-range"@));
            assert(!css_kw_match(spec_pc_name(v), "out-of-range"@));
            lemma_kw_self(spec_pc_name(v));
        },
        PseudoClass::Closed => {
            assert(!css_kw_match(spec_pc_name(v), "hover"@));
            lemma_kw_differs_at(spec_pc_name(v), "active"@, 0);
            assert(!css_kw_match(spec_pc_name(v), "focus"@));
            assert(!css_kw_match(spec_pc_name(v), "focus-within"@));
            assert(!css_kw_match(spec_pc_name(v), "focus-visible"@));
            assert(!css_kw_match(spec_pc_name(v), "enabled"@));
            assert(!css_kw_match(spec_pc_name(v), "disabled"@));
            assert(!css_kw_match(spec_pc_name(v), "checked"@));
            assert(!css_kw_match(spec_pc_name(v), "indeterminate"@));
            assert(!css_kw_match(spec_pc_name(v), "required"@));
            assert(!css_kw_match(spec_pc_name(v), "optional"@));
            assert(!css_kw_match(spec_pc_name(v), "valid"@));
            assert(!css_kw_match(spec_pc_name(v), "invalid"@));
            assert(!css_kw_match(spec_pc_name(v), "read-only"@));
            assert(!css_kw_match(spec_pc_name(v), "read-write"@));
            assert(!css_kw_match(spec_pc_name(v), "placeholder-shown"@));
            assert(!css_kw_match(spec_pc_name(v), "default"@));
            lemma_kw_differs_at(spec_pc_name(v), "target"@, 0);
            assert(!css_kw_match(spec_pc_name(v), "visited"@));
            assert(!css_kw_match(spec_pc_name(v), "link"@));
            assert(!css_kw_match(spec_pc_name(v), "any-link"@));
            assert(!css_kw_match(spec_pc_name(v), "fullscreen"@));
            assert(!css_kw_match(spec_pc_name(v), "modal"@));
            assert(!css_kw_match(spec_pc_name(v), "popover-open"@));
            assert(!css_kw_match(spec_pc_name(v), "defined"@));
            assert(!css_kw_match(spec_pc_name(v), "autofill"@));
            assert(!css_kw_match(spec_pc_name(v), "user-valid"@));
            assert(!css_kw_match(spec_pc_name(v), "user-invalid"@));
            assert(!css_kw_match(spec_pc_name(v), "root"@));
            assert(!css_kw_match(spec_pc_name(v), "empty"@));
            assert(!css_kw_match(spec_pc_name(v), "first-child"@));
            assert(!css_kw_match(spec_pc_name(v), "last-child"@));
            assert(!css_kw_match(spec_pc_name(v), "only-child"@));
            assert(!css_kw_match(spec_pc_name(v), "first-of-type"@));
            assert(!css_kw_match(spec_pc_name(v), "last-of-type"@));
            assert(!css_kw_match(spec_pc_name(v), "only-of-type"@));
            assert(!css_kw_match(spec_pc_name(v), "scope"@));
            assert(!css_kw_match(spec_pc_name(v), "playing"@));
            lemma_kw_differs_at(spec_pc_name(v), "paused"@, 0);
            assert(!css_kw_match(spec_pc_name(v), "seeking"@));
            assert(!css_kw_match(spec_pc_name(v), "buffering"@));
            assert(!css_kw_match(spec_pc_name(v), "stalled"@));
            assert(!css_kw_match(spec_pc_name(v), "muted"@));
            assert(!css_kw_match(spec_pc_name(v), "volume-locked"@));
            assert(!css_kw_match(spec_pc_name(v), "blank"@));
            assert(!css_kw_match(spec_pc_name(v), "in-range"@));
            assert(!css_kw_match(spec_pc_name(v), "out-of-range"@));
            assert(!css_kw_match(spec_pc_name(v), "open"@));
            lemma_kw_self(spec_pc_name(v));
        },
        PseudoClass::PictureInPicture => {
            assert(!css_kw_match(spec_pc_name(v), "hover"@));
            assert(!css_kw_match(spec_pc_name(v), "active"@));
            assert(!css_kw_match(spec_pc_name(v), "focus"@));
            assert(!css_kw_match(spec_pc_name(v), "focus-within"@));
            assert(!css_kw_match(spec_pc_name(v), "focus-visible"@));
            assert(!css_kw_match(spec_pc_name(v), "enabled"@));
            assert(!css_kw_match(spec_pc_name(v), "disabled"@));
            assert(!css_kw_match(spec_pc_name(v), "checked"@));
            assert(!css_kw_match(spec_pc_name(v), "indeterminate"@));
            assert(!css_kw_match(spec_pc_name(v), "required"@));
            assert(!css_kw_match(spec_pc_name(v), "optional"@));
            assert(!css_kw_match(spec_pc_name(v), "valid"@));
            assert(!css_kw_match(spec_pc_name(v), "invalid"@));
            assert(!css_kw_match(spec_pc_name(v), "read-only"@));
            assert(!css_kw_match(spec_pc_name(v), "read-write"@));
            assert(!css_kw_match(spec_pc_name(v), "placeholder-shown"@));
            assert(!css_kw_match(spec_pc_name(v), "default"@));
            assert(!css_kw_match(spec_pc_name(v), "target"@));
            assert(!css_kw_match(spec_pc_name(v), "visited"@));
            assert(!css_kw_match(spec_pc_name(v), "link"@));
            assert(!css_kw_match(spec_pc_name(v), "any-link"@));
            assert(!css_kw_match(spec_pc_name(v), "fullscreen"@));
            assert(!css_kw_match(spec_pc_name(v), "modal"@));
            assert(!css_kw_match(spec_pc_name(v), "popover-open"@));
            assert(!css_kw_match(spec_pc_name(v), "defined"@));
            assert(!css_kw_match(spec_pc_name(v), "autofill"@));
            assert(!css_kw_match(spec_pc_name(v), "user-valid"@));
            assert(!css_kw_match(spec_pc_name(v), "user-invalid"@));
            assert(!css_kw_match(spec_pc_name(v), "root"@));
            assert(!css_kw_match(spec_pc_name(v), "empty"@));
            assert(!css_kw_match(spec_pc_name(v), "first-child"@));
            assert(!css_kw_match(spec_pc_name(v), "last-child"@));
            assert(!css_kw_match(spec_pc_name(v), "only-child"@));
            assert(!css_kw_match(spec_pc_name(v), "first-of-type"@));
            assert(!css_kw_match(spec_pc_name(v), "last-of-type"@));
            assert(!css_kw_match(spec_pc_name(v), "only-of-type"@));
            assert(!css_kw_match(spec_pc_name(v), "scope"@));
            assert(!css_kw_match(spec_pc_name(v), "playing"@));
            assert(!css_kw_match(spec_pc_name(v), "paused"@));
            assert(!css_kw_match(spec_pc_name(v), "seeking"@));
            assert(!css_kw_match(spec_pc_name(v), "buffering"@));
            assert(!css_kw_match(spec_pc_name(v), "stalled"@));
            assert(!css_kw_match(spec_pc_name(v), "muted"@));
            assert(!css_kw_match(spec_pc_name(v), "volume-locked"@));
            assert(!css_kw_match(spec_pc_name(v), "blank"@));
            assert(!css_kw_match(spec_pc_name(v), "in-range"@));
            assert(!css_kw_match(spec_pc_name(v), "out-of-range"@));
            assert(!css_kw_match(spec_pc_name(v), "open"@));
            assert(!css_kw_match(spec_pc_name(v), "closed"@));
            lemma_kw_self(spec_pc_name(v));
        },
        PseudoClass::TargetWithin => {
            assert(!css_kw_match(spec_pc_name(v), "hover"@));
            assert(!css_kw_match(spec_pc_name(v), "active"@));
            assert(!css_kw_match(spec_pc_name(v), "focus"@));
            assert(!css_kw_match(spec_pc_name(v), "focus-within"@));
            lemma_kw_differs_at(spec_pc_name(v), "focus-visible"@, 0);
            assert(!css_kw_match(spec_pc_name(v), "enabled"@));
            assert(!css_kw_match(spec_pc_name(v), "disabled"@));
            assert(!css_kw_match(spec_pc_name(v), "checked"@));
            lemma_kw_differs_at(spec_pc_name(v), "indeterminate"@, 0);
            assert(!css_kw_match(spec_pc_name(v), "required"@));
            assert(!css_kw_match(spec_pc_name(v), "optional"@));
            assert(!css_kw_match(spec_pc_name(v), "valid"@));
            assert(!css_kw_match(spec_pc_name(v), "invalid"@));
            assert(!css_kw_match(spec_pc_name(v), "read-only"@));
            assert(!css_kw_match(spec_pc_name(v), "read-write"@));
            assert(!css_kw_match(spec_pc_name(v), "placeholder-shown"@));
            assert(!css_kw_match(spec_pc_name(v), "default"@));
            assert(!css_kw_match(spec_pc_name(v), "target"@));
            assert(!css_kw_match(spec_pc_name(v), "visited"@));
            assert(!css_kw_match(spec_pc_name(v), "link"@));
            assert(!css_kw_match(spec_pc_name(v), "any-link"@));
            assert(!css_kw_match(spec_pc_name(v), "fullscreen"@));
            assert(!css_kw_match(spec_pc_name(v), "modal"@));
            assert(!css_kw_match(spec_pc_name(v), "popover-open"@));
            assert(!css_kw_match(spec_pc_name(v), "defined"@));
            assert(!css_kw_match(spec_pc_name(v), "autofill"@));
            assert(!css_kw_match(spec_pc_name(v), "user-valid"@));
            assert(!css_kw_match(spec_pc_name(v), "user-invalid"@));
            assert(!css_kw_match(spec_pc_name(v), "root"@));
            assert(!css_kw_match(spec_pc_name(v), "empty"@));
            assert(!css_kw_match(spec_pc_name(v), "first-child"@));
            assert(!css_kw_match(spec_pc_name(v), "last-child"@));
            assert(!css_kw_match(spec_pc_name(v), "only-child"@));
            lemma_kw_differs_at(spec_pc_name(v), "first-of-type"@, 0);
            assert(!css_kw_match(spec_pc_name(v), "last-of-type"@));
            assert(!css_kw_match(spec_pc_name(v), "only-of-type"@));
            assert(!css_kw_match(spec_pc_name(v), "scope"@));
            assert(!css_kw_match(spec_pc_name(v), "playing"@));
            assert(!css_kw_match(spec_pc_name(v), "paused"@));
            assert(!css_kw_match(spec_pc_name(v), "seeking"@));
            assert(!css_kw_match(spec_pc_name(v), "buffering"@));
            assert(!css_kw_match(spec_pc_name(v), "stalled"@));
            assert(!css_kw_match(spec_pc_name(v), "muted"@));
            lemma_kw_differs_at(spec_pc_name(v), "volume-locked"@, 0);
            assert(!css_kw_match(spec_pc_name(v), "blank"@));
            assert(!css_kw_match(spec_pc_name(v), "in-range"@));
            assert(!css_kw_match(spec_pc_name(v), "out-of-range"@));
            assert(!css_kw_match(spec_pc_name(v), "open"@));
            assert(!css_kw_match(spec_pc_name(v), "closed"@));
            assert(!css_kw_match(spec_pc_name(v), "picture-in-picture"@));
            lemma_kw_self(spec_pc_name(v));
        },
        PseudoClass::LocalLink => {
            assert(!css_kw_match(spec_pc_name(v), "hover"@));
            assert(!css_kw_match(spec_pc_name(v), "active"@));
            assert(!css_kw_match(spec_pc_name(v), "focus"@));
            assert(!css_kw_match(spec_pc_name(v), "focus-within"@));
            assert(!css_kw_match(spec_pc_name(v), "focus-visible"@));
            assert(!css_kw_match(spec_pc_name(v), "enabled"@));
            assert(!css_kw_match(spec_pc_name(v), "disabled"@));
            assert(!css_kw_match(spec_pc_name(v), "checked"@));
            assert(!css_kw_match(spec_pc_name(v), "indeterminate"@));
            assert(!css_kw_match(spec_pc_name(v), "required"@));
            assert(!css_kw_match(spec_pc_name(v), "optional"@));
            assert(!css_kw_match(spec_pc_name(v), "valid"@));
            assert(!css_kw_match(spec_pc_name(v), "invalid"@));
            assert(!css_kw_match(spec_pc_name(v), "read-only"@));
            lemma_kw_differs_at(spec_pc_name(v), "read-write"@, 0);
            assert(!css_kw_match(spec_pc_name(v), "placeholder-shown"@));
            assert(!css_kw_match(spec_pc_name(v), "default"@));
            assert(!css_kw_match(spec_pc_name(v), "target"@));
            assert(!css_kw_match(spec_pc_name(v), "visited"@));
            assert(!css_kw_match(spec_pc_name(v), "link"@));
            assert(!css_kw_match(spec_pc_name(v), "any-link"@));
            lemma_kw_differs_at(spec_pc_name(v), "fullscreen"@, 0);
            assert(!css_kw_match(spec_pc_name(v), "modal"@));
            assert(!css_kw_match(spec_pc_name(v), "popover-open"@));
            assert(!css_kw_match(spec_pc_name(v), "defined"@));
            assert(!css_kw_match(spec_pc_name(v), "autofill"@));
            lemma_kw_differs_at(spec_pc_name(v), "user-valid"@, 0);
            assert(!css_kw_match(spec_pc_name(v), "user-invalid"@));
            assert(!css_kw_match(spec_pc_name(v), "root"@));
            assert(!css_kw_match(spec_pc_name(v), "empty"@));
            assert(!css_kw_match(spec_pc_name(v), "first-child"@));
            lemma_kw_differs_at(spec_pc_name(v), "last-child"@, 1);
            lemma_kw_differs_at(spec_pc_name(v), "only-child"@, 0);
            assert(!css_kw_match(spec_pc_name(v), "first-of-type"@));
            assert(!css_kw_match(spec_pc_name(v), "last-of-type"@));
            assert(!css_kw_match(spec_pc_name(v), "only-of-type"@));
            assert(!css_kw_match(spec_pc_name(v), "scope"@));
            assert(!css_kw_match(spec_pc_name(v), "playing"@));
            assert(!css_kw_match(spec_pc_name(v), "paused"@));
            assert(!css_kw_match(spec_pc_name(v), "seeking"@));
            assert(!css_kw_match(spec_pc_name(v), "buffering"@));
            assert(!css_kw_match(spec_pc_name(v), "stalled"@));
            assert(!css_kw_match(spec_pc_name(v), "muted"@));
            assert(!css_kw_match(spec_pc_name(v), "volume-locked"@));
            assert(!css_kw_match(spec_pc_name(v), "blank"@));
            assert(!css_kw_match(spec_pc_name(v), "in-range"@));
            assert(!css_kw_match(spec_pc_name(v), "out-of-range"@));
            assert(!css_kw_match(spec_pc_name(v), "open"@));
            assert(!css_kw_match(spec_pc_name(v), "closed"@));
            assert(!css_kw_match(spec_pc_name(v), "picture-in-picture"@));
            assert(!css_kw_match(spec_pc_name(v), "target-within"@));
            lemma_kw_self(spec_pc_name(v));
        },
        PseudoClass::Current => {
            assert(!css_kw_match(spec_pc_name(v), "hover"@));
            assert(!css_kw_match(spec_pc_name(v), "active"@));
            assert(!css_kw_match(spec_pc_name(v), "focus"@));
            assert(!css_kw_match(spec_pc_name(v), "focus-within"@));
            assert(!css_kw_match(spec_pc_name(v), "focus-visible"@));
            lemma_kw_differs_at(spec_pc_name(v), "enabled"@, 0);
            assert(!css_kw_match(spec_pc_name(v), "disabled"@));
            lemma_kw_differs_at(spec_pc_name(v), "checked"@, 1);
            assert(!css_kw_match(spec_pc_name(v), "indeterminate"@));
            assert(!css_kw_match(spec_pc_name(v), "required"@));
            assert(!css_kw_match(spec_pc_name(v), "optional"@));
            assert(!css_kw_match(spec_pc_name(v), "valid"@));
            lemma_kw_differs_at(spec_pc_name(v), "invalid"@, 0);
            assert(!css_kw_match(spec_pc_name(v), "read-only"@));
            assert(!css_kw_match(spec_pc_name(v), "read-write"@));
            assert(!css_kw_match(spec_pc_name(v), "placeholder-shown"@));
            lemma_kw_differs_at(spec_pc_name(v), "default"@, 0);
            assert(!css_kw_match(spec_pc_name(v), "target"@));
            lemma_kw_differs_at(spec_pc_name(v), "visited"@, 0);
            assert(!css_kw_match(spec_pc_name(v), "link"@));
            assert(!css_kw_match(spec_pc_name(v), "any-link"@));
            assert(!css_kw_match(spec_pc_name(v), "fullscreen"@));
            assert(!css_kw_match(spec_pc_name(v), "modal"@));
            assert(!css_kw_match(spec_pc_name(v), "popover-open"@));
            lemma_kw_differs_at(spec_pc_name(v), "defined"@, 0);
            assert(!css_kw_match(spec_pc_name(v), "autofill"@));
            assert(!css_kw_match(spec_pc_name(v), "user-valid"@));
            assert(!css_kw_match(spec_pc_name(v), "user-invalid"@));
            assert(!css_kw_match(spec_pc_name(v), "root"@));
            assert(!css_kw_match(spec_pc_name(v), "empty"@));
            assert(!css_kw_match(spec_pc_name(v), "first-child"@));
            assert(!css_kw_match(spec_pc_name(v), "last-child"@));
            assert(!css_kw_match(spec_pc_name(v), "only-child"@));
            assert(!css_kw_match(spec_pc_name(v), "first-of-type"@));
            assert(!css_kw_match(spec_pc_name(v), "last-of-type"@));
            assert(!css_kw_match(spec_pc_name(v), "only-of-type"@));
            assert(!css_kw_match(spec_pc_name(v), "scope"@));
            lemma_kw_differs_at(spec_pc_name(v), "playing"@, 0);
            assert(!css_kw_match(spec_pc_name(v), "paused"@));
            lemma_kw_differs_at(spec_pc_name(v), "seeking"@, 0);
            assert(!css_kw_match(spec_pc_name(v), "buffering"@));
            lemma_kw_differs_at(spec_pc_name(v), "stalled"@, 0);
            assert(!css_kw_match(spec_pc_name(v), "muted"@));
            assert(!css_kw_match(spec_pc_name(v), "volume-locked"@));
            assert(!css_kw_match(spec_pc_name(v), "blank"@));
            assert(!css_kw_match(spec_pc_name(v), "in-range"@));
            assert(!css_kw_match(spec_pc_name(v), "out-of-range"@));
            assert(!css_kw_match(spec_pc_name(v), "open"@));
            assert(!css_kw_match(spec_pc_name(v), "closed"@));
            assert(!css_kw_match(spec_pc_name(v), "picture-in-picture"@));
            assert(!css_kw_match(spec_pc_name(v), "target-within"@));
            assert(!css_kw_match(spec_pc_name(v), "local-link"@));
            lemma_kw_self(spec_pc_name(v));
        },
        PseudoClass::Past => {
            assert(!css_kw_match(spec_pc_name(v), "hover"@));
            assert(!css_kw_match(spec_pc_name(v), "active"@));
            assert(!css_kw_match(spec_pc_name(v), "focus"@));
            assert(!css_kw_match(spec_pc_name(v), "focus-within"@));
            assert(!css_kw_match(spec_pc_name(v), "focus-visible"@));
            assert(!css_kw_match(spec_pc_name(v), "enabled"@));
            assert(!css_kw_match(spec_pc_name(v), "disabled"@));
            assert(!css_kw_match(spec_pc_name(v), "checked"@));
            assert(!css_kw_match(spec_pc_name(v), "indeterminate"@));
            assert(!css_kw_match(spec_pc_name(v), "required"@));
            assert(!css_kw_match(spec_pc_name(v), "optional"@));
            assert(!css_kw_match(spec_pc_name(v), "valid"@));
            assert(!css_kw_match(spec_pc_name(v), "invalid"@));
            assert(!css_kw_match(spec_pc_name(v), "read-only"@));
            assert(!css_kw_match(spec_pc_name(v), "read-write"@));
            assert(!css_kw_match(spec_pc_name(v), "placeholder-shown"@));
            assert(!css_kw_match(spec_pc_name(v), "default"@));
            assert(!css_kw_match(spec_pc_name(v), "target"@));
            assert(!css_kw_match(spec_pc_name(v), "visited"@));
            lemma_kw_differs_at(spec_pc_name(v), "link"@, 0);
            assert(!css_kw_match(spec_pc_name(v), "any-link"@));
            assert(!css_kw_match(spec_pc_name(v), "fullscreen"@));
            assert(!css_kw_match(spec_pc_name(v), "modal"@));
            assert(!css_kw_match(spec_pc_name(v), "popover-open"@));
            assert(!css_kw_match(spec_pc_name(v), "defined"@));
            assert(!css_kw_match(spec_pc_name(v), "autofill"@));
            assert(!css_kw_match(spec_pc_name(v), "user-valid"@));
            assert(!css_kw_match(spec_pc_name(v), "user-invalid"@));
            lemma_kw_differs_at(spec_pc_name(v), "root"@, 0);
            assert(!css_kw_match(spec_pc_name(v), "empty"@));
            assert(!css_kw_match(spec_pc_name(v), "first-child"@));
            assert(!css_kw_match(spec_pc_name(v), "last-child"@));
            assert(!css_kw_match(spec_pc_name(v), "only-child"@));
            assert(!css_kw_match(spec_pc_name(v), "first-of-type"@));
            assert(!css_kw_match(spec_pc_name(v), "last-of-type"@));
            assert(!css_kw_match(spec_pc_name(v), "only-of-type"@));
            assert(!css_kw_match(spec_pc_name(v), "scope"@));
            assert(!css_kw_match(spec_pc_name(v), "playing"@));
            assert(!css_kw_match(spec_pc_name(v), "paused"@));
            assert(!css_kw_match(spec_pc_name(v), "seeking"@));
            assert(!css_kw_match(spec_pc_name(v), "buffering"@));
            assert(!css_kw_match(spec_pc_name(v), "stalled"@));
            assert(!css_kw_match(spec_pc_name(v), "muted"@));
            assert(!css_kw_match(spec_pc_name(v), "volume-locked"@));
            assert(!css_kw_match(spec_pc_name(v), "blank"@));
            assert(!css_kw_match(spec_pc_name(v), "in-range"@));
            assert(!css_kw_match(spec_pc_name(v), "out-of-range"@));
            lemma_kw_differs_at(spec_pc_name(v), "open"@, 0);
            assert(!css_kw_match(spec_pc_name(v), "closed"@));
            assert(!css_kw_match(spec_pc_name(v), "picture-in-picture"@));
            assert(!css_kw_match(spec_pc_name(v), "target-within"@));
            assert(!css_kw_match(spec_pc_name(v), "local-link"@));
            assert(!css_kw_match(spec_pc_name(v), "current"@));
            lemma_kw_self(spec_pc_name(v));
        },
        PseudoClass::Future => {
            assert(!css_kw_match(spec_pc_name(v), "hover"@));
            lemma_kw_differs_at(spec_pc_name(v), "active"@, 0);
            assert(!css_kw_match(spec_pc_name(v), "focus"@));
            assert(!css_kw_match(spec_pc_name(v), "focus-within"@));
            assert(!css_kw_match(spec_pc_name(v), "focus-visible"@));
            assert(!css_kw_match(spec_pc_name(v), "enabled"@));
            assert(!css_kw_match(spec_pc_name(v), "disabled"@));
            assert(!css_kw_match(spec_pc_name(v), "checked"@));
            assert(!css_kw_match(spec_pc_name(v), "indeterminate"@));
            assert(!css_kw_match(spec_pc_name(v), "required"@));
            assert(!css_kw_match(spec_pc_name(v), "optional"@));
            assert(!css_kw_match(spec_pc_name(v), "valid"@));
            assert(!css_kw_match(spec_pc_name(v), "invalid"@));
            assert(!css_kw_match(spec_pc_name(v), "read-only"@));
            assert(!css_kw_match(spec_pc_name(v), "read-write"@));
            assert(!css_kw_match(spec_pc_name(v), "placeholder-shown"@));
            assert(!css_kw_match(spec_pc_name(v), "default"@));
            lemma_kw_differs_at(spec_pc_name(v), "target"@, 0);
            assert(!css_kw_match(spec_pc_name(v), "visited"@));
            assert(!css_kw_match(spec_pc_name(v), "link"@));
            assert(!css_kw_match(spec_pc_name(v), "any-link"@));
            assert(!css_kw_match(spec_pc_name(v), "fullscreen"@));
            assert(!css_kw_match(spec_pc_name(v), "modal"@));
            assert(!css_kw_match(spec_pc_name(v), "popover-open"@));
            assert(!css_kw_match(spec_pc_name(v), "defined"@));
            assert(!css_kw_match(spec_pc_name(v), "autofill"@));
            assert(!css_kw_match(spec_pc_name(v), "user-valid"@));
            assert(!css_kw_match(spec_pc_name(v), "user-invalid"@));
            assert(!css_kw_match(spec_pc_name(v), "root"@));
            assert(!css_kw_match(spec_pc_name(v), "empty"@));
            assert(!css_kw_match(spec_pc_name(v), "first-child"@));
            assert(!css_kw_match(spec_pc_name(v), "last-child"@));
            assert(!css_kw_match(spec_pc_name(v), "only-child"@));
            assert(!css_kw_match(spec_pc_name(v), "first-of-type"@));
            assert(!css_kw_match(spec_pc_name(v), "last-of-type"@));
            assert(!css_kw_match(spec_pc_name(v), "only-of-type"@));
            assert(!css_kw_match(spec_pc_name(v), "scope"@));
            assert(!css_kw_match(spec_pc_name(v), "playing"@));
            lemma_kw_differs_at(spec_pc_name(v), "paused"@, 0);
            assert(!css_kw_match(spec_pc_name(v), "seeking"@));
            assert(!css_kw_match(spec_pc_name(v), "buffering"@));
            assert(!css_kw_match(spec_pc_name(v), "stalled"@));
            assert(!css_kw_match(spec_pc_name(v), "muted"@));
            assert(!css_kw_match(spec_pc_name(v), "volume-locked"@));
            assert(!css_kw_match(spec_pc_name(v), "blank"@));
            assert(!css_kw_match(spec_pc_name(v), "in-range"@));
            assert(!css_kw_match(spec_pc_name(v), "out-of-range"@));
            assert(!css_kw_match(spec_pc_name(v), "open"@));
            lemma_kw_differs_at(spec_pc_name(v), "closed"@, 0);
            assert(!css_kw_match(spec_pc_name(v), "picture-in-picture"@));
            assert(!css_kw_match(spec_pc_name(v), "target-within"@));
            assert(!css_kw_match(spec_pc_name(v), "local-link"@));
            assert(!css_kw_match(spec_pc_name(v), "current"@));
            assert(!css_kw_match(spec_pc_name(v), "past"@));
            lemma_kw_self(spec_pc_name(v));
        },
    }
}

/// The pseudo-element a keyword names, as for pseudo-classes.
pub open spec fn spec_parse_pseudo_element_name(name: Seq<char>) -> Option<PseudoElement> {
    if css_kw_match(name, "before"@) {
        Some(PseudoElement::Before)
    } else if css_kw_match(name, "after"@) {
        Some(PseudoElement::After)
    } else if css_kw_match(name, "first-line"@) {
        Some(PseudoElement::FirstLine)
    } else if css_kw_match(name, "first-letter"@) {
        Some(PseudoElement::FirstLetter)
    } else if css_kw_match(name, "placeholder"@) {
        Some(PseudoElement::Placeholder)
    } else if css_kw_match(name, "selection"@) {
        Some(PseudoElement::Selection)
    } else if css_kw_match(name, "marker"@) {
        Some(PseudoElement::Marker)
    } else if css_kw_match(name, "backdrop"@) {
        Some(PseudoElement::Backdrop)
    } else if css_kw_match(name, "file-selector-button"@) {
        Some(PseudoElement::FileSelectorButton)
    } else if css_kw_match(name, "grammar-error"@) {
        Some(PseudoElement::GrammarError)
    } else if css_kw_match(name, "spelling-error"@) {
        Some(PseudoElement::SpellingError)
    } else {
        None
    }
}

/// Reading back the CSS name of a pseudo-element gives that pseudo-element.
pub proof fn lemma_pseudo_element_name_round_trip(v: PseudoElement)
    ensures
        spec_parse_pseudo_element_name(spec_pe_name(v)) == Some(v),
{
    reveal_strlit("before");
    reveal_strlit("after");
    reveal_strlit("first-line");
    reveal_strlit("first-letter");
    reveal_strlit("placeholder");
    reveal_strlit("selection");
    reveal_strlit("marker");
    reveal_strlit("backdrop");
    reveal_strlit("file-selector-button");
    reveal_strlit("grammar-error");
    reveal_strlit("spelling-error");
    match v {
        PseudoElement::Before => {
            lemma_kw_self(spec_pe_name(v));
        },
        PseudoElement::After => {
            assert(!css_kw_match(spec_pe_name(v), "before"@));
            lemma_kw_self(spec_pe_name(v));
        },
        PseudoElement::FirstLine => {
            assert(!css_kw_match(spec_pe_name(v), "before"@));
            assert(!css_kw_match(spec_pe_name(v), "after"@));
            lemma_kw_self(spec_pe_name(v));
        },
        PseudoElement::FirstLetter => {
            assert(!css_kw_match(spec_pe_name(v), "before"@));
            assert(!css_kw_match(spec_pe_name(v), "after"@));
            assert(!css_kw_match(spec_pe_name(v), "first-line"@));
            lemma_kw_self(spec_pe_name(v));
        },
        PseudoElement::Placeholder => {
            assert(!css_kw_match(spec_pe_name(v), "before"@));
            assert(!css_kw_match(spec_pe_name(v), "after"@));
            assert(!css_kw_match(spec_pe_name(v), "first-line"@));
            assert(!css_kw_match(spec_pe_name(v), "first-letter"@));
            lemma_kw_self(spec_pe_name(v));
        },
        PseudoElement::Selection => {
            assert(!css_kw_match(spec_pe_name(v), "before"@));
            assert(!css_kw_match(spec_pe_name(v), "after"@));
            assert(!css_kw_match(spec_pe_name(v), "first-line"@));
            assert(!css_kw_match(spec_pe_name(v), "first-letter"@));
            assert(!css_kw_match(spec_pe_name(v), "placeholder"@));
            lemma_kw_self(spec_pe_name(v));
        },
        PseudoElement::Marker => {
            lemma_kw_differs_at(spec_pe_name(v), "before"@, 0);
            assert(!css_kw_match(spec_pe_name(v), "after"@));
            assert(!css_kw_match(spec_pe_name(v), "first-line"@));
            assert(!css_kw_match(spec_pe_name(v), "first-letter"@));
            assert(!css_kw_match(spec_pe_name(v), "placeholder"@));
            assert(!css_kw_match(spec_pe_name(v), "selection"@));
            lemma_kw_self(spec_pe_name(v));
        },
        PseudoElement::Backdrop => {
            assert(!css_kw_match(spec_pe_name(v), "before"@));
            assert(!css_kw_match(spec_pe_name(v), "after"@));
            assert(!css_kw_match(spec_pe_name(v), "first-line"@));
            assert(!css_kw_match(spec_pe_name(v), "first-letter"@));
            assert(!css_kw_match(spec_pe_name(v), "placeholder"@));
            assert(!css_kw_match(spec_pe_name(v), "selection"@));
            assert(!css_kw_match(spec_pe_name(v), "marker"@));
            lemma_kw_self(spec_pe_name(v));
        },
        PseudoElement::FileSelectorButton => {
            assert(!css_kw_match(spec_pe_name(v), "before"@));
            assert(!css_kw_match(spec_pe_name(v), "after"@));
            assert(!css_kw_match(spec_pe_name(v), "first-line"@));
            assert(!css_kw_match(spec_pe_name(v), "first-letter"@));
            assert(!css_kw_match(spec_pe_name(v), "placeholder"@));
            assert(!css_kw_match(spec_pe_name(v), "selection"@));
            assert(!css_kw_match(spec_pe_name(v), "marker"@));
            assert(!css_kw_match(spec_pe_name(v), "backdrop"@));
            lemma_kw_self(spec_pe_name(v));
        },
        PseudoElement::GrammarError => {
            assert(!css_kw_match(spec_pe_name(v), "before"@));
            assert(!css_kw_match(spec_pe_name(v), "after"@));
            assert(!css_kw_match(spec_pe_name(v), "first-line"@));
            assert(!css_kw_match(spec_pe_name(v), "first-letter"@));
            assert(!css_kw_match(spec_pe_name(v), "placeholder"@));
            assert(!css_kw_match(spec_pe_name(v), "selection"@));
            assert(!css_kw_match(spec_pe_name(v), "marker"@));
            assert(!css_kw_match(spec_pe_name(v), "backdrop"@));
            assert(!css_kw_match(spec_pe_name(v), "file-selector-button"@));
            lemma_kw_self(spec_pe_name(v));
        },
        PseudoElement::SpellingError => {
            assert(!css_kw_match(spec_pe_name(v), "before"@));
            assert(!css_kw_match(spec_pe_name(v), "after"@));
            assert(!css_kw_match(spec_pe_name(v), "first-line"@));
            assert(!css_kw_match(spec_pe_name(v), "first-letter"@));
            assert(!css_kw_match(spec_pe_name(v), "placeholder"@));
            assert(!css_kw_match(spec_pe_name(v), "selection"@));
            assert(!css_kw_match(spec_pe_name(v), "marker"@));
            assert(!css_kw_match(spec_pe_name(v), "backdrop"@));
            assert(!css_kw_match(spec_pe_name(v), "file-selector-button"@));
            assert(!css_kw_match(spec_pe_name(v), "grammar-error"@));
            lemma_kw_self(spec_pe_name(v));
        },
    }
}

/// Look up a pseudo-element by name.
pub fn parse_pseudo_element_name(name: &str) -> (r: Option<PseudoElement>)
    ensures
        r == spec_parse_pseudo_element_name(name@),
{
    if css_kw_eq(name, "before") {
        Some(PseudoElement::Before)
    } else if css_kw_eq(name, "after") {
        Some(PseudoElement::After)
    } else if css_kw_eq(name, "first-line") {
        Some(PseudoElement::FirstLine)
    } else if css_kw_eq(name, "first-letter") {
        Some(PseudoElement::FirstLetter)
    } else if css_kw_eq(name, "placeholder") {
        Some(PseudoElement::Placeholder)
    } else if css_kw_eq(name, "selection") {
        Some(PseudoElement::Selection)
    } else if css_kw_eq(name, "marker") {
        Some(PseudoElement::Marker)
    } else if css_kw_eq(name, "backdrop") {
        Some(PseudoElement::Backdrop)
    } else if css_kw_eq(name, "file-selector-button") {
        Some(PseudoElement::FileSelectorButton)
    } else if css_kw_eq(name, "grammar-error") {
        Some(PseudoElement::GrammarError)
    } else if css_kw_eq(name, "spelling-error") {
        Some(PseudoElement::SpellingError)
    } else {
        None
    }
}

/// Every selector of a top-level list is well formed.
pub open spec fn list_wf(sels: Seq<Selector>) -> bool {
    forall|i: int| 0 <= i < sels.len() ==> selector_wf(#[trigger] sels[i])
}

/// Every selector of a top-level list is shaped, unless emptied.
pub open spec fn list_shape_law(sels: Seq<Selector>) -> bool {
    forall|i: int| 0 <= i < sels.len() ==> shape_law(#[trigger] sels[i])
}

/// Every selector of a top-level list obeys the specificity law.
pub open spec fn list_specificity_law(sels: Seq<Selector>) -> bool {
    forall|i: int| 0 <= i < sels.len() ==> specificity_law(#[trigger] sels[i])
}

/// The components `c1` extend `c0` with simple components, and the
/// specificity grew from `s0` to `s1` by the weight of the appended ones.
pub open spec fn grew(c0: Seq<Component>, s0: Specificity, c1: Seq<Component>, s1: Specificity) -> bool {
    &&& c0.len() <= c1.len()
    &&& c1.subrange(0, c0.len() as int) == c0
    &&& s1.0 + comps_weight(c0) == s0.0 + comps_weight(c1)
    &&& forall|k: int| c0.len() <= k < c1.len() ==> simple_ok(#[trigger] c1[k])
}

proof fn lemma_grew_refl(c: Seq<Component>, s: Specificity)
    ensures
        grew(c, s, c, s),
{
    assert(c.subrange(0, c.len() as int) =~= c);
}

proof fn lemma_grew_push(c0: Seq<Component>, s0: Specificity, x: Component, s1: Specificity)
    requires
        s1.0 == s0.0 + comp_weight(x),
        simple_ok(x),
    ensures
        grew(c0, s0, c0.push(x), s1),
{
    lemma_weight_push(c0, x);
    assert(c0.push(x).subrange(0, c0.len() as int) =~= c0);
}

proof fn lemma_grew_trans(
    c0: Seq<Component>,
    s0: Specificity,
    c1: Seq<Component>,
    s1: Specificity,
    c2: Seq<Component>,
    s2: Specificity,
)
    requires
        grew(c0, s0, c1, s1),
        grew(c1, s1, c2, s2),
    ensures
        grew(c0, s0, c2, s2),
{
    assert(c2.subrange(0, c0.len() as int) =~= c1.subrange(0, c0.len() as int));
    assert forall|k: int| c0.len() <= k < c2.len() implies simple_ok(#[trigger] c2[k]) by {
        if k < c1.len() {
            assert(c2.subrange(0, c1.len() as int)[k] == c2[k]);
        }
    }
}

/// The number of comma tokens among tokens `[from, to)` (commas inside a
/// block belong to the block and are not counted).
pub open spec fn comma_count(t: Seq<CssToken>, from: int, to: int) -> nat
    decreases to - from,
{
    if to <= from {
        0
    } else {
        comma_count(t, from, to - 1) + if t[to - 1].kind is Comma {
            1nat
        } else {
            0nat
        }
    }
}

/// No comma token among tokens `[from, to)`.
spec fn no_comma(t: Seq<CssToken>, from: int, to: int) -> bool {
    forall|k: int| from <= k < to ==> !((#[trigger] t[k]).kind is Comma)
}

proof fn lemma_no_comma_count(t: Seq<CssToken>, from: int, to: int)
    requires
        no_comma(t, from, to),
    ensures
        comma_count(t, from, to) == 0,
    decreases to - from,
{
    if to > from {
        lemma_no_comma_count(t, from, to - 1);
    }
}

proof fn lemma_comma_split(t: Seq<CssToken>, a: int, b: int, c: int)
    requires
        a <= b <= c,
    ensures
        comma_count(t, a, c) == comma_count(t, a, b) + comma_count(t, b, c),
    decreases c - b,
{
    if c > b {
        lemma_comma_split(t, a, b, c - 1);
    }
}

/// The first index at or after `pos` whose token is not whitespace (the
/// length when there is none).
pub open spec fn skip_ws_spec(t: Seq<CssToken>, pos: int) -> int
    decreases t.len() - pos,
{
    if pos >= t.len() || !(t[pos].kind is WhiteSpace) {
        pos
    } else {
        skip_ws_spec(t, pos + 1)
    }
}

/// The source text of tokens `[from, to)`, concatenated.
pub open spec fn text_of(t: Seq<CssToken>, from: int, to: int) -> Seq<char>
    decreases to - from,
{
    if to <= from {
        Seq::empty()
    } else {
        text_of(t, from, to - 1) + t[to - 1].text@
    }
}

/// Index of the first non-whitespace token at or after `pos`.
fn skip_ws(t: &[CssToken], pos: usize) -> (r: usize)
    requires
        pos <= t@.len(),
    ensures
        pos <= r <= t@.len(),
        r == skip_ws_spec(t@, pos as int),
        no_comma(t@, pos as int, r as int),
        r < t@.len() ==> !(t@[r as int].kind is WhiteSpace),
{
    let mut i = pos;
    while i < t.len()
        invariant
            pos <= i <= t@.len(),
            skip_ws_spec(t@, pos as int) == skip_ws_spec(t@, i as int),
            no_comma(t@, pos as int, i as int),
        decreases t@.len() - i,
    {
        match &t[i].kind {
            TokenKind::WhiteSpace => {
                i = i + 1;
            },
            _ => {
                return i;
            },
        }
    }
    i
}

/// The index of the next token that is not whitespace.
fn next_index(t: &[CssToken], pos: usize) -> (r: Option<usize>)
    requires
        pos <= t@.len(),
    ensures
        pos <= skip_ws_spec(t@, pos as int) <= t@.len(),
        r is Some <==> skip_ws_spec(t@, pos as int) < t@.len(),
        r matches Some(k) ==> k == skip_ws_spec(t@, pos as int),
        r matches Some(k) ==> pos <= k < t@.len() && no_comma(t@, pos as int, k as int),
        r is None ==> no_comma(t@, pos as int, t@.len() as int),
{
    let k = skip_ws(t, pos);
    if k < t.len() {
        Some(k)
    } else {
        None
    }
}

/// Only whitespace is left.
fn is_exhausted(t: &[CssToken], pos: usize) -> (r: bool)
    requires
        pos <= t@.len(),
    ensures
        r == (skip_ws_spec(t@, pos as int) == t@.len()),
        r ==> no_comma(t@, pos as int, t@.len() as int),
{
    skip_ws(t, pos) == t.len()
}

/// The next token is an identifier: its value and the position after it.
fn expect_ident<'a>(t: &'a [CssToken], pos: usize) -> (r: Result<(&'a String, usize), ()>)
    requires
        pos <= t@.len(),
    ensures
        r matches Ok((_, p)) ==> pos < p <= t@.len() && no_comma(t@, pos as int, p as int),
        r is Ok <==> (skip_ws_spec(t@, pos as int) < t@.len() && t@[skip_ws_spec(
            t@,
            pos as int,
        )].kind is Ident),
        r matches Ok((s, p)) ==> p == skip_ws_spec(t@, pos as int) + 1 && t@[p - 1].kind
            == TokenKind::Ident(*s),
{
    match next_index(t, pos) {
        Some(k) => match &t[k].kind {
            TokenKind::Ident(s) => Ok((s, k + 1)),
            _ => Err(()),
        },
        None => Err(()),
    }
}

/// The next token is a comma: the position after it.
fn expect_comma(t: &[CssToken], pos: usize) -> (r: Result<usize, ()>)
    requires
        pos <= t@.len(),
    ensures
        r matches Ok(p) ==> pos < p <= t@.len() && no_comma(t@, pos as int, p - 1) && t@[p
            - 1].kind is Comma,
        r is Ok <==> (skip_ws_spec(t@, pos as int) < t@.len() && t@[skip_ws_spec(
            t@,
            pos as int,
        )].kind is Comma),
        r matches Ok(p) ==> p == skip_ws_spec(t@, pos as int) + 1,
{
    match next_index(t, pos) {
        Some(k) => match &t[k].kind {
            TokenKind::Comma => Ok(k + 1),
            _ => Err(()),
        },
        None => Err(()),
    }
}

/// The contents of the block opened by token `k`.
fn nested<'a>(t: &'a [CssToken], k: usize) -> (r: Result<&'a [CssToken], ()>)
    requires
        k < t@.len(),
    ensures
        r is Ok <==> t@[k as int].block_ok,
        r matches Ok(b) ==> b@ == t@[k as int].block@,
{
    if t[k].block_ok {
        Ok(t[k].block.as_slice())
    } else {
        Err(())
    }
}

/// The next token, whitespace included, is the delimiter `c`.
fn is_delim_at(t: &[CssToken], pos: usize, c: char) -> (r: bool)
    requires
        pos <= t@.len(),
    ensures
        r == (pos < t@.len() && t@[pos as int].kind == TokenKind::Delim(c)),
        r ==> pos < t@.len() && t@[pos as int].kind is Delim,
{
    if pos < t.len() {
        match &t[pos].kind {
            TokenKind::Delim(d) => *d == c,
            _ => false,
        }
    } else {
        false
    }
}

/// The source text of tokens `[from, to)`.
fn tokens_text(t: &[CssToken], from: usize, to: usize) -> (r: String)
    requires
        from <= to <= t@.len(),
    ensures
        r@ == text_of(t@, from as int, to as int),
{
    let mut out = String::new();
    let mut i = from;
    proof {
        assert(out@ =~= text_of(t@, from as int, from as int));
    }
    while i < to
        invariant
            from <= i <= to,
            to <= t@.len(),
            out@ == text_of(t@, from as int, i as int),
        decreases to - i,
    {
        crate::text::push_str(&mut out, t[i].text.as_str());
        i = i + 1;
    }
    out
}

/// Adds `amount` to a specificity unless that overflows.
fn try_add(s: &mut Specificity, amount: u32) -> (r: Result<(), ()>)
    ensures
        r is Ok <==> old(s).0 + amount <= u32::MAX,
        r is Ok ==> final(s).0 == old(s).0 + amount,
        r is Err ==> *final(s) == *old(s),
{
    if s.0 <= u32::MAX - amount {
        add_specificity_raw(Specificity(amount), s);
        Ok(())
    } else {
        Err(())
    }
}

/// Adds an ID selector (a += 1).
fn add_id(s: &mut Specificity) -> (r: Result<(), ()>)
    ensures
        r is Ok <==> old(s).0 + 0x1000000 <= u32::MAX,
        r is Ok ==> final(s).0 == old(s).0 + 0x1000000,
        r is Err ==> *final(s) == *old(s),
{
    try_add(s, 0x1000000u32)
}

/// Adds a class, attribute or pseudo-class (b += 1).
fn add_class(s: &mut Specificity) -> (r: Result<(), ()>)
    ensures
        r is Ok <==> old(s).0 + 0x1000 <= u32::MAX,
        r is Ok ==> final(s).0 == old(s).0 + 0x1000,
        r is Err ==> *final(s) == *old(s),
{
    try_add(s, 0x1000u32)
}

/// Adds a type or pseudo-element (c += 1).
fn add_type(s: &mut Specificity) -> (r: Result<(), ()>)
    ensures
        r is Ok <==> old(s).0 + 1 <= u32::MAX,
        r is Ok ==> final(s).0 == old(s).0 + 1,
        r is Err ==> *final(s) == *old(s),
{
    try_add(s, 1u32)
}

/// Adds a packed specificity to another.
pub fn add_specificity_raw(source: Specificity, target: &mut Specificity)
    requires
        old(target).0 + source.0 <= u32::MAX,
    ensures
        final(target).0 == old(target).0 + source.0,
{
    *target = Specificity::from_raw(target.value() + source.value());
}

/// The highest specificity of a list of selectors, if any.
fn max_specificity(sels: &[Selector]) -> (r: Option<Specificity>)
    requires
        all_weight_ok(sels@),
    ensures
        sels@.len() == 0 <==> r is None,
        r matches Some(m) ==> m.0 == max_weight(sels@),
{
    if sels.len() == 0 {
        return None;
    }
    let mut best = Specificity::zero();
    let mut i: usize = sels.len();
    proof {
        assert(sels@.skip(i as int) =~= Seq::<Selector>::empty());
    }
    while i > 0
        invariant
            i <= sels@.len(),
            all_weight_ok(sels@),
            best.0 == max_weight(sels@.skip(i as int)),
        decreases i,
    {
        i = i - 1;
        let s = sels[i].specificity();
        proof {
            assert(sels@.skip(i as int).drop_first() =~= sels@.skip(i + 1));
            assert(weight_ok(sels@[i as int]));
        }
        best = s.max(best);
    }
    proof {
        assert(sels@.skip(0) =~= sels@);
    }
    Some(best)
}

/// Adds the highest specificity of a list (`:is()`, `:not()`, ...).
fn add_max_specificity(sels: &[Selector], spec: &mut Specificity) -> (r: Result<(), ()>)
    requires
        all_weight_ok(sels@),
    ensures
        r is Ok <==> old(spec).0 + max_weight(sels@) <= u32::MAX,
        r is Ok ==> final(spec).0 == old(spec).0 + max_weight(sels@),
        r is Err ==> *final(spec) == *old(spec),
{
    match max_specificity(sels) {
        Some(m) => try_add(spec, m.0),
        None => Ok(()),
    }
}

/// The highest specificity of a list, zero for an empty list.
fn max_specificity_value(sels: &[Selector]) -> (r: u32)
    requires
        all_weight_ok(sels@),
    ensures
        r == max_weight(sels@),
{
    match max_specificity(sels) {
        Some(m) => m.0,
        None => 0,
    }
}

/// Adds `x + y` to a specificity unless that overflows.
fn add_two(spec: &mut Specificity, x: u32, y: u32) -> (r: Result<(), ()>)
    ensures
        r is Ok <==> old(spec).0 + x + y <= u32::MAX,
        r is Ok ==> final(spec).0 == old(spec).0 + x + y,
        r is Err ==> *final(spec) == *old(spec),
{
    if x <= u32::MAX - y {
        try_add(spec, x + y)
    } else {
        Err(())
    }
}

/// The highest specificity of the selectors of a `:has()` argument list
/// (zero for an empty list).
fn rel_max_specificity(rels: &[RelativeSelector]) -> (r: u32)
    requires
        forall|k: int| 0 <= k < rels@.len() ==> weight_ok(#[trigger] rels@[k].selector),
    ensures
        r == rel_max(rels@),
{
    let mut best = Specificity::zero();
    let mut i: usize = rels.len();
    proof {
        assert(rels@.skip(i as int) =~= Seq::<RelativeSelector>::empty());
    }
    while i > 0
        invariant
            i <= rels@.len(),
            forall|k: int| 0 <= k < rels@.len() ==> weight_ok(#[trigger] rels@[k].selector),
            best.0 == rel_max(rels@.skip(i as int)),
        decreases i,
    {
        i = i - 1;
        let s = rels[i].selector.specificity();
        proof {
            assert(rels@.skip(i as int).drop_first() =~= rels@.skip(i + 1));
            assert(weight_ok(rels@[i as int].selector));
        }
        best = s.max(best);
    }
    proof {
        assert(rels@.skip(0) =~= rels@);
    }
    best.0
}

/// Some selector of the list has a pseudo-element component.
pub open spec fn has_pseudo_element(sels: Seq<Selector>) -> bool {
    exists|i: int, j: int|
        0 <= i < sels.len() && 0 <= j < sels[i].comps@.len() && (#[trigger] sels[i].comps@[j]) is PseudoElement
}

/// A selector list contains a pseudo-element in one of its selectors.
fn contains_pseudo_element(sels: &[Selector]) -> (r: bool)
    ensures
        r == has_pseudo_element(sels@),
{
    let mut i: usize = 0;
    while i < sels.len()
        invariant
            i <= sels@.len(),
            forall|a: int, j: int|
                0 <= a < i && 0 <= j < sels@[a].comps@.len() ==> !((#[trigger] sels@[a].comps@[j]) is PseudoElement),
        decreases sels@.len() - i,
    {
        let comps = &sels[i].comps;
        let mut j: usize = 0;
        while j < comps.len()
            invariant
                i < sels@.len(),
                *comps == sels@[i as int].comps,
                j <= comps@.len(),
                forall|a: int, jj: int|
                    0 <= a < i && 0 <= jj < sels@[a].comps@.len() ==> !((#[trigger] sels@[a].comps@[jj]) is PseudoElement),
                forall|jj: int| 0 <= jj < j ==> !((#[trigger] comps@[jj]) is PseudoElement),
            decreases comps@.len() - j,
        {
            match &comps[j] {
                Component::PseudoElement(_) => {
                    return true;
                },
                _ => {},
            }
            j = j + 1;
        }
        i = i + 1;
    }
    false
}

/// A component is `:has()`, or a `:not()`/`:is()`/`:where()` list with a
/// selector that holds one.
pub open spec fn comp_holds_has(c: Component) -> bool
    decreases c, 0nat,
{
    match c {
        Component::Has(_) => true,
        Component::Negation(l) => exists|i: int| 0 <= i < l.0@.len() && sel_holds_has(#[trigger] l.0@[i]),
        Component::Is(l) => exists|i: int| 0 <= i < l.0@.len() && sel_holds_has(#[trigger] l.0@[i]),
        Component::Where(l) => exists|i: int| 0 <= i < l.0@.len() && sel_holds_has(#[trigger] l.0@[i]),
        _ => false,
    }
}

/// A selector holds `:has()`, directly or inside `:not()`/`:is()`/`:where()`.
pub open spec fn sel_holds_has(sel: Selector) -> bool
    decreases sel, 1nat,
{
    exists|i: int| 0 <= i < sel.comps@.len() && comp_holds_has(#[trigger] sel.comps@[i])
}

/// A selector contains `:has()`, directly or inside `:not()`/`:is()`/`:where()`.
fn contains_has(sel: &Selector) -> (r: bool)
    ensures
        r == sel_holds_has(*sel),
    decreases sel, 1nat,
{
    let mut i: usize = 0;
    while i < sel.comps.len()
        invariant
            i <= sel.comps@.len(),
            forall|k: int| 0 <= k < i ==> !comp_holds_has(#[trigger] sel.comps@[k]),
        decreases sel.comps@.len() - i,
    {
        let c = &sel.comps[i];
        let found = match c {
            Component::Has(_) => true,
            Component::Negation(l) | Component::Is(l) | Component::Where(l) => any_contains_has(
                l.0.as_slice(),
            ),
            _ => false,
        };
        if found {
            return true;
        }
        i = i + 1;
    }
    false
}

fn any_contains_has(sels: &[Selector]) -> (r: bool)
    ensures
        r == exists|i: int| 0 <= i < sels@.len() && sel_holds_has(#[trigger] sels@[i]),
    decreases sels@, 0nat,
{
    let mut i: usize = 0;
    while i < sels.len()
        invariant
            i <= sels@.len(),
            forall|k: int| 0 <= k < i ==> !sel_holds_has(#[trigger] sels@[k]),
        decreases sels@.len() - i,
    {
        if contains_has(&sels[i]) {
            return true;
        }
        i = i + 1;
    }
    false
}

/// The single components of a list of at least two one-component
/// selectors; otherwise the list back.
fn extract_flat_singles(list: Vec<Selector>) -> (r: Result<Vec<Component>, Vec<Selector>>)
    ensures
        r matches Ok(singles) ==> singles@.len() == list@.len() && forall|k: int|
            0 <= k < list@.len() ==> (#[trigger] list@[k]).comps@ == seq![singles@[k]],
        r matches Err(back) ==> back@ == list@,
{
    if list.len() < 2 {
        return Err(list);
    }
    let mut i: usize = 0;
    while i < list.len()
        invariant
            i <= list@.len(),
            forall|k: int| 0 <= k < i ==> (#[trigger] list@[k]).comps@.len() == 1,
        decreases list@.len() - i,
    {
        if list[i].comps.len() != 1 {
            return Err(list);
        }
        i = i + 1;
    }
    let ghost orig = list@;
    let mut src = list;
    let mut out: Vec<Component> = Vec::new();
    while src.len() > 0
        invariant
            out@.len() + src@.len() == orig.len(),
            src@ == orig.skip(out@.len() as int),
            forall|k: int| 0 <= k < orig.len() ==> (#[trigger] orig[k]).comps@.len() == 1,
            forall|k: int| 0 <= k < out@.len() ==> (#[trigger] orig[k]).comps@ == seq![out@[k]],
        decreases src@.len(),
    {
        let ghost n = out@.len();
        let mut s = src.remove(0);
        proof {
            assert(s == orig[n as int]);
            assert(src@ =~= orig.skip(n as int + 1));
        }
        let ghost before = s.comps@;
        match s.comps.pop() {
            Some(c) => {
                proof {
                    assert(before =~= seq![c]);
                }
                out.push(c);
            },
            None => {},
        }
    }
    Ok(out)
}

/// The combinator written at `pos` (whitespace not skipped) and the
/// position after it.
pub open spec fn combinator_at(t: Seq<CssToken>, pos: int) -> Option<(Combinator, int)> {
    if pos >= t.len() {
        None
    } else if t[pos].kind == TokenKind::Delim('>') {
        Some((Combinator::Child, pos + 1))
    } else if t[pos].kind == TokenKind::Delim('+') {
        Some((Combinator::NextSibling, pos + 1))
    } else if t[pos].kind == TokenKind::Delim('~') {
        Some((Combinator::LaterSibling, pos + 1))
    } else if t[pos].kind == TokenKind::Delim('|') && pos + 1 < t.len() && t[pos + 1].kind
        == TokenKind::Delim('|') {
        Some((Combinator::Column, pos + 2))
    } else {
        None
    }
}

/// Consumes whitespace tokens: the position after them, and whether any.
fn consume_whitespace(t: &[CssToken], pos: usize) -> (r: (usize, bool))
    requires
        pos <= t@.len(),
    ensures
        pos <= r.0 <= t@.len(),
        no_comma(t@, pos as int, r.0 as int),
        r.0 == skip_ws_spec(t@, pos as int),
        r.1 == (r.0 > pos),
{
    let k = skip_ws(t, pos);
    (k, k > pos)
}

/// An explicit combinator at `pos` (whitespace not skipped).
fn try_combinator(t: &[CssToken], pos: usize) -> (r: Option<(Combinator, usize)>)
    requires
        pos <= t@.len(),
    ensures
        r matches Some((_, p)) ==> pos < p <= t@.len() && no_comma(t@, pos as int, p as int),
        r is None <==> combinator_at(t@, pos as int) is None,
        r matches Some((c, p)) ==> combinator_at(t@, pos as int) == Some((c, p as int)),
{
    if pos >= t.len() {
        return None;
    }
    match &t[pos].kind {
        TokenKind::Delim('>') => Some((Combinator::Child, pos + 1)),
        TokenKind::Delim('+') => Some((Combinator::NextSibling, pos + 1)),
        TokenKind::Delim('~') => Some((Combinator::LaterSibling, pos + 1)),
        TokenKind::Delim('|') => {
            if is_delim_at(t, pos + 1, '|') {
                Some((Combinator::Column, pos + 2))
            } else {
                None
            }
        },
        _ => None,
    }
}

/// A selector of a plain list starting at `pos` is `s`: its components,
/// in parse order, are those of the plain complex selector there, and its
/// specificity is that selector's.
pub open spec fn plain_sel_is(t: Seq<CssToken>, pos: int, s: Selector) -> bool {
    plain_complex(t, pos) matches Some((_, w)) && s.spec.0 == w && plain_complex_is(
        t,
        pos,
        s.comps@.reverse(),
    )
}

/// After a selector of a plain list ending at `p`: the further selectors,
/// each after a comma. The list's end and how many further selectors.
pub open spec fn plain_list_tail(t: Seq<CssToken>, p: int) -> Option<(int, int)>
    decreases t.len() - p,
{
    let k = skip_ws_spec(t, p);
    if 0 <= k < t.len() && t[k].kind is Comma {
        match plain_complex(t, k + 1) {
            Some((e, w)) => if w <= u32::MAX && p < e <= t.len() {
                match plain_list_tail(t, e) {
                    Some((e2, n)) => Some((e2, n + 1)),
                    None => None,
                }
            } else {
                None
            },
            None => None,
        }
    } else {
        Some((p, 0))
    }
}

/// `sels` are the further selectors `plain_list_tail` reads from `p`.
pub open spec fn plain_list_tail_is(t: Seq<CssToken>, p: int, sels: Seq<Selector>) -> bool
    decreases t.len() - p,
{
    let k = skip_ws_spec(t, p);
    if 0 <= k < t.len() && t[k].kind is Comma {
        match plain_complex(t, k + 1) {
            Some((e, _)) => {
                &&& p < e <= t.len()
                &&& sels.len() > 0
                &&& plain_sel_is(t, k + 1, sels[0])
                &&& plain_list_tail_is(t, e, sels.drop_first())
            },
            None => false,
        }
    } else {
        sels.len() == 0
    }
}

/// A plain selector list at `pos`: plain complex selectors separated by
/// commas, none of whose specificity overflows. Its end and its length.
pub open spec fn plain_list(t: Seq<CssToken>, pos: int) -> Option<(int, int)> {
    match plain_complex(t, pos) {
        Some((e, w)) => if w <= u32::MAX && pos <= e <= t.len() {
            match plain_list_tail(t, e) {
                Some((e2, n)) => Some((e2, n + 1)),
                None => None,
            }
        } else {
            None
        },
        None => None,
    }
}

/// `sels` are the selectors of the plain list at `pos`, in order.
pub open spec fn plain_list_is(t: Seq<CssToken>, pos: int, sels: Seq<Selector>) -> bool {
    &&& sels.len() > 0
    &&& plain_sel_is(t, pos, sels[0])
    &&& plain_list_tail_is(t, pair_first(plain_complex(t, pos)), sels.drop_first())
}

/// The first comma at or after `p`, or the end of the tokens.
pub open spec fn first_comma(t: Seq<CssToken>, p: int) -> int
    decreases t.len() - p,
{
    if p < 0 || p >= t.len() {
        t.len() as int
    } else if t[p].kind is Comma {
        p
    } else {
        first_comma(t, p + 1)
    }
}

/// Whether the comma-separated part starting at `p` is kept by a forgiving
/// list: `Some(true)` when it is a whole plain complex selector,
/// `Some(false)` when no selector can begin there or a plain one stops
/// before the part's end; `None` when it is not plain.
pub open spec fn forgiving_part(t: Seq<CssToken>, p: int) -> Option<bool> {
    let end = first_comma(t, p);
    match plain_complex(t, p) {
        Some((e, w)) => if w <= u32::MAX {
            Some(skip_ws_spec(t, e) == end)
        } else {
            None
        },
        None => if compound_fails_at(t, skip_ws_spec(t, p)) {
            Some(false)
        } else {
            None
        },
    }
}

/// A forgiving list from `p` whose parts are all decided by
/// `forgiving_part`: how many selectors it keeps.
pub open spec fn plain_forgiving(t: Seq<CssToken>, p: int) -> Option<int>
    decreases t.len() - p,
{
    let end = first_comma(t, p);
    match forgiving_part(t, p) {
        Some(keep) => {
            let k: int = if keep {
                1
            } else {
                0
            };
            if end >= t.len() || end < p {
                Some(k)
            } else {
                match plain_forgiving(t, end + 1) {
                    Some(n) => Some(n + k),
                    None => None,
                }
            }
        },
        None => None,
    }
}

/// `sels` are the selectors a forgiving list from `p` keeps: those of the
/// parts that are whole plain complex selectors, in order.
pub open spec fn plain_forgiving_is(t: Seq<CssToken>, p: int, sels: Seq<Selector>) -> bool
    decreases t.len() - p,
{
    let end = first_comma(t, p);
    match forgiving_part(t, p) {
        Some(keep) => {
            let rest = if keep {
                sels.drop_first()
            } else {
                sels
            };
            &&& keep ==> sels.len() > 0 && plain_sel_is(t, p, sels[0])
            &&& if end >= t.len() || end < p {
                rest.len() == 0
            } else {
                plain_forgiving_is(t, end + 1, rest)
            }
        },
        None => false,
    }
}

/// The first comma at or after `p`, or the end of the tokens.
fn next_comma(t: &[CssToken], p: usize) -> (r: usize)
    requires
        p <= t@.len(),
    ensures
        p <= r <= t@.len(),
        no_comma(t@, p as int, r as int),
        r < t@.len() ==> t@[r as int].kind is Comma,
        r == first_comma(t@, p as int),
{
    let mut i = p;
    while i < t.len()
        invariant
            p <= i <= t@.len(),
            no_comma(t@, p as int, i as int),
            first_comma(t@, p as int) == first_comma(t@, i as int),
        decreases t@.len() - i,
    {
        match &t[i].kind {
            TokenKind::Comma => {
                return i;
            },
            _ => {},
        }
        i = i + 1;
    }
    i
}

/// A selector list: comma-separated complex selectors. With `forgiving`,
/// the list runs to the end of the tokens and each comma-separated part
/// that is not a selector is dropped; otherwise one failure fails the list.
/// With `sub`, selectors get argument hints.
#[verifier::rlimit(60)]
#[verifier::spinoff_prover]
fn parse_list(t: &[CssToken], pos: usize, sub: bool, forgiving: bool) -> (r: Result<
    (Vec<Selector>, usize),
    (),
>)
    requires
        pos <= t@.len(),
    ensures
        forgiving ==> (r matches Ok((sels, p)) && p == t@.len() && sels@.len() <= 1 + comma_count(
            t@,
            pos as int,
            t@.len() as int,
        )),
        plain_forgiving(t@, pos as int) matches Some(n) ==> forgiving ==> (
        r matches Ok((sels, _)) && plain_forgiving_is(t@, pos as int, sels@)),
        !forgiving ==> compound_fails_at(t@, skip_ws_spec(t@, pos as int)) ==> r is Err,
        plain_list(t@, pos as int) matches Some((e, n)) ==> !forgiving ==> (
        r matches Ok((sels, p)) && p == e && plain_list_is(t@, pos as int, sels@)),
        r matches Ok((sels, p)) ==> pos <= p <= t@.len() && (!sub ==> list_wf(sels@)) && (
        !forgiving ==> sels@.len() >= 1) && (sub ==> all_weight_ok(sels@)) && (!sub
            ==> list_specificity_law(sels@)) && (sub ==> all_shaped(sels@)) && (!sub
            ==> list_shape_law(sels@)) && (!forgiving ==> sels@.len() == 1 + comma_count(
            t@,
            pos as int,
            p as int,
        )),
    decreases t@, 5nat,
{
    let mut sels: Vec<Selector> = Vec::new();
    let mut p = pos;
    if forgiving {
        let ghost pf = plain_forgiving(t@, pos as int);
        let ghost plainf = pf is Some;
        proof {
            lemma_no_comma_count(t@, pos as int, pos as int);
            if plainf {
                assert forall|rest: Seq<Selector>| plain_forgiving_is(t@, pos as int, rest) implies plain_forgiving_is(
                    t@,
                    pos as int,
                    sels@ + rest,
                ) by {
                    assert(sels@ + rest =~= rest);
                }
            }
        }
        loop
            invariant
                pf == plain_forgiving(t@, pos as int),
                plainf == (pf is Some),
                plainf ==> plain_forgiving(t@, p as int) is Some,
                plainf ==> forall|rest: Seq<Selector>|
                    plain_forgiving_is(t@, p as int, rest) ==> plain_forgiving_is(
                        t@,
                        pos as int,
                        sels@ + rest,
                    ),
                forgiving,
                pos <= p <= t@.len(),
                !sub ==> list_wf(sels@),
                sub ==> all_weight_ok(sels@),
                !sub ==> list_specificity_law(sels@),
                sub ==> all_shaped(sels@),
                !sub ==> list_shape_law(sels@),
                sels@.len() <= 1 + comma_count(t@, pos as int, p as int),
                p > pos ==> sels@.len() <= comma_count(t@, pos as int, p as int),
                p == pos ==> sels@.len() == 0,
            decreases t@.len() - p,
        {
            let end = next_comma(t, p);
            let ghost p0 = p;
            let ghost old_sels = sels@;
            proof {
                lemma_no_comma_count(t@, p as int, end as int);
                lemma_comma_split(t@, pos as int, p as int, end as int);
            }
            let mut kept = false;
            match parse_complex_selector(t, p, sub) {
                Ok((s, q)) => {
                    if skip_ws(t, q) == end {
                        sels.push(s);
                        kept = true;
                    }
                },
                Err(()) => {},
            }
            proof {
                if plainf {
                    assert(forgiving_part(t@, p0 as int) == Some(kept));
                    assert forall|rest: Seq<Selector>| (if end >= t@.len() {
                        rest.len() == 0
                    } else {
                        plain_forgiving_is(t@, end + 1, rest)
                    }) implies plain_forgiving_is(t@, pos as int, sels@ + rest) by {
                        let r2 = if kept {
                            seq![sels@.last()] + rest
                        } else {
                            rest
                        };
                        if kept {
                            assert(r2.drop_first() =~= rest);
                            assert(old_sels + r2 =~= sels@ + rest);
                        } else {
                            assert(old_sels =~= sels@);
                        }
                        assert(plain_forgiving_is(t@, p0 as int, r2));
                    }
                }
            }
            if end >= t.len() {
                proof {
                    if plainf {
                        assert(sels@ + Seq::<Selector>::empty() =~= sels@);
                    }
                }
                return Ok((sels, t.len()));
            }
            proof {
                assert(comma_count(t@, pos as int, end + 1) == comma_count(t@, pos as int, end as int)
                    + 1);
            }
            p = end + 1;
        }
    }
    let ghost pl = plain_list(t@, pos as int);
    let ghost plainl = pl is Some;
    let ghost e0 = pair_first(plain_complex(t@, pos as int));
    let (s, q) = parse_complex_selector(t, p, sub)?;
    sels.push(s);
    p = q;
    proof {
        lemma_no_comma_count(t@, pos as int, p as int);
        if plainl {
            assert(p == e0);
            assert forall|rest: Seq<Selector>| plain_list_tail_is(t@, p as int, rest) implies plain_list_is(
                t@,
                pos as int,
                sels@ + rest,
            ) by {
                assert((sels@ + rest).drop_first() =~= rest);
                assert((sels@ + rest)[0] == s);
            }
        }
    }
    loop
        invariant
            !compound_fails_at(t@, skip_ws_spec(t@, pos as int)),
            pl == plain_list(t@, pos as int),
            plainl == (pl is Some),
            plainl ==> (plain_list_tail(t@, p as int) matches Some((ee, _)) && ee == pair_first(pl)),
            plainl ==> forall|rest: Seq<Selector>|
                plain_list_tail_is(t@, p as int, rest) ==> plain_list_is(
                    t@,
                    pos as int,
                    sels@ + rest,
                ),
            !forgiving,
            sels@.len() == 1 + comma_count(t@, pos as int, p as int),
            pos <= p <= t@.len(),
            !sub ==> list_wf(sels@),
            sels@.len() >= 1,
            sub ==> all_weight_ok(sels@),
            !sub ==> list_specificity_law(sels@),
            sub ==> all_shaped(sels@),
            !sub ==> list_shape_law(sels@),
        decreases t@.len() - p,
    {
        let k = match expect_comma(t, p) {
            Ok(k) => k,
            Err(()) => {
                proof {
                    if plainl {
                        assert(plain_list_tail_is(t@, p as int, Seq::<Selector>::empty()));
                        assert(sels@ + Seq::<Selector>::empty() =~= sels@);
                    }
                }
                return Ok((sels, p));
            },
        };
        let ghost p0 = p;
        let ghost old_sels = sels@;
        p = k;
        proof {
            lemma_no_comma_count(t@, p0 as int, k - 1);
            lemma_comma_split(t@, pos as int, p0 as int, k as int);
        }
        let (s, q) = parse_complex_selector(t, p, sub)?;
        sels.push(s);
        p = q;
        proof {
            lemma_no_comma_count(t@, k as int, q as int);
            lemma_comma_split(t@, pos as int, k as int, q as int);
            if plainl {
                assert forall|rest: Seq<Selector>| plain_list_tail_is(t@, q as int, rest) implies plain_list_is(
                    t@,
                    pos as int,
                    sels@ + rest,
                ) by {
                    let r2 = seq![s] + rest;
                    assert(r2.drop_first() =~= rest);
                    assert(plain_list_tail_is(t@, p0 as int, r2));
                    assert(old_sels + r2 =~= sels@ + rest);
                }
            }
        }
    }
}

/// A complex selector: compounds joined by combinators.
#[verifier::rlimit(80)]
#[verifier::spinoff_prover]
fn parse_complex_selector(t: &[CssToken], pos: usize, sub: bool) -> (r: Result<(Selector, usize), ()>)
    requires
        pos <= t@.len(),
    ensures
        r matches Ok((s, p)) ==> pos <= p <= t@.len() && (!sub ==> selector_wf(s)) && (sub
            ==> weight_ok(s)) && specificity_law(s) && (sub ==> sel_shaped(s)) && shape_law(s)
            && no_comma(t@, pos as int, p as int),
        plain_complex(t@, pos as int) matches Some((e, w)) ==> w <= u32::MAX ==> (
        r matches Ok((s, q)) && q == e && s.spec.0 == w && plain_complex_is(
            t@,
            pos as int,
            s.comps@.reverse(),
        )),
        compound_fails_at(t@, skip_ws_spec(t@, pos as int)) ==> r is Err,
    decreases t@, 4nat,
{
    let ghost pcx = plain_complex(t@, pos as int);
    let ghost plainc = pcx is Some && pair_second(pcx) <= u32::MAX;
    let ghost big_e = pair_first(pcx);
    let ghost big_w = pair_second(pcx);
    let ghost e0 = pair_first(plain_compound(t@, pos as int));
    proof {
        lemma_plain_compound_facts(t@, pos as int);
        lemma_plain_tail_nonneg(t@, e0);
    }
    let mut comps = ComponentBuf::new();
    let mut spec = Specificity::zero();
    proof {
        assert(comps_weight(buf_items(comps)) == 0);
    }
    let mut p = parse_compound_selector(t, pos, &mut comps, &mut spec)?;
    proof {
        lemma_shaped_simple_run(buf_items(comps));
        if plainc {
            let app = buf_items(comps);
            assert(app.subrange(0, app.len() as int) =~= app);
            lemma_plain_compound_is(t@, pos as int, app);
            assert forall|rest: Seq<Component>| plain_tail_is(t@, p as int, rest) implies plain_complex_is(
                t@,
                pos as int,
                app + rest,
            ) by {
                assert((app + rest).take(app.len() as int) =~= app);
                assert((app + rest).skip(app.len() as int) =~= rest);
            }
        }
    }
    loop
        invariant_except_break
            plainc ==> (plain_tail(t@, p as int) matches Some((ee, ww)) && ee == big_e && spec.0
                + ww == big_w),
            plainc ==> forall|rest: Seq<Component>|
                plain_tail_is(t@, p as int, rest) ==> plain_complex_is(
                    t@,
                    pos as int,
                    buf_items(comps) + rest,
                ),
        invariant
            pos <= p <= t@.len(),
            no_comma(t@, pos as int, p as int),
            spec.0 == comps_weight(buf_items(comps)),
            comps_shaped(buf_items(comps)),
            pcx == plain_complex(t@, pos as int),
            plainc == (pcx is Some && pair_second(pcx) <= u32::MAX),
            big_e == pair_first(pcx),
            big_w == pair_second(pcx),
            plainc ==> big_w <= u32::MAX,
            plainc ==> forall|i: int|
                0 <= i < buf_items(comps).len() ==> plain_comp(#[trigger] buf_items(comps)[i]),
        ensures
            pos <= p <= t@.len(),
            no_comma(t@, pos as int, p as int),
            spec.0 == comps_weight(buf_items(comps)),
            comps_shaped(buf_items(comps)),
            plainc ==> p == big_e && spec.0 == big_w && plain_complex_is(
                t@,
                pos as int,
                buf_items(comps),
            ),
            plainc ==> forall|i: int|
                0 <= i < buf_items(comps).len() ==> plain_comp(#[trigger] buf_items(comps)[i]),
        decreases t@.len() - p,
    {
        let ghost p0 = p;
        let ghost tl = plain_tail(t@, p0 as int);
        proof {
            lemma_plain_tail_nonneg(t@, p0 as int);
            lemma_skip_ws_ge(t@, p0 as int);
        }
        let (q, had_ws) = consume_whitespace(t, p);
        p = q;
        match try_combinator(t, p) {
            Some((comb, q2)) => {
                let ghost before = buf_items(comps);
                let ghost s_before = spec;
                proof {
                    if plainc {
                        lemma_plain_compound_facts(t@, q2 as int);
                        let pcq = plain_compound(t@, q2 as int);
                        assert(pcq is Some);
                        let e = pair_first(pcq);
                        let w = pair_second(pcq);
                        assert(p0 < e <= t@.len());
                        lemma_plain_tail_nonneg(t@, e);
                        let tl2 = plain_tail(t@, e);
                        assert(tl2 is Some);
                        assert(tl == Some((pair_first(tl2), w + pair_second(tl2))));
                        assert(spec.0 + w <= u32::MAX);
                    }
                }
                comps.push(Component::Combinator(comb));
                proof {
                    lemma_weight_push(before, Component::Combinator(comb));
                }
                let ghost pushed = buf_items(comps);
                proof {
                    if plainc {
                        assert(pushed.len() > 0 && pushed.last() is Combinator);
                        let pcq = plain_compound(t@, q2 as int);
                        assert(spec.0 + pair_second(pcq) <= u32::MAX);
                    }
                }
                let rr = parse_compound_selector(t, q2, &mut comps, &mut spec);
                proof {
                    if plainc {
                        assert(rr is Ok);
                    }
                }
                p = rr?;
                proof {
                    assert(pushed == before.push(Component::Combinator(comb)));
                    lemma_shaped_extend(before, Component::Combinator(comb), buf_items(comps));
                    if plainc {
                        let app = buf_items(comps).subrange(pushed.len() as int, buf_items(comps).len() as int);
                        lemma_plain_compound_is(t@, q2 as int, app);
                        assert(buf_items(comps) =~= pushed + app);
                        assert forall|i: int| 0 <= i < buf_items(comps).len() implies plain_comp(
                            #[trigger] buf_items(comps)[i],
                        ) by {
                            if i >= pushed.len() {
                                assert(buf_items(comps)[i] == app[i - pushed.len()]);
                            } else if i < before.len() {
                                assert(buf_items(comps)[i] == before[i]);
                            }
                        }
                        assert forall|rest: Seq<Component>| plain_tail_is(t@, p as int, rest) implies plain_complex_is(
                            t@,
                            pos as int,
                            buf_items(comps) + rest,
                        ) by {
                            let cs = seq![Component::Combinator(comb)] + app + rest;
                            let l = app.len() as int;
                            assert(cs.subrange(1, 1 + l) =~= app);
                            assert(cs.skip(1 + l) =~= rest);
                            assert(plain_tail_is(t@, p0 as int, cs));
                            assert(before + cs =~= buf_items(comps) + rest);
                        }
                    }
                }
                continue ;
            },
            None => {},
        }
        if had_ws && !is_exhausted(t, p) {
            let saved_len = comps.len();
            let saved_spec = spec;
            let ghost before = buf_items(comps);
            proof {
                if plainc {
                    lemma_plain_compound_facts(t@, q as int);
                    let e = pair_first(plain_compound(t@, q as int));
                    lemma_plain_tail_nonneg(t@, e);
                    lemma_skip_ws_idem(t@, p0 as int);
                    assert(skip_ws_spec(t@, q as int) == q);
                }
            }
            comps.push(Component::Combinator(Combinator::Descendant));
            proof {
                lemma_weight_push(before, Component::Combinator(Combinator::Descendant));
            }
            let ghost pushed = buf_items(comps);
            match parse_compound_selector(t, p, &mut comps, &mut spec) {
                Ok(q3) => {
                    proof {
                        lemma_shaped_extend(
                            before,
                            Component::Combinator(Combinator::Descendant),
                            buf_items(comps),
                        );
                    }
                    if q3 == p {
                        break ;
                    }
                    proof {
                        if plainc {
                            let app = buf_items(comps).subrange(pushed.len() as int, buf_items(comps).len() as int);
                            lemma_plain_compound_is(t@, q as int, app);
                            assert(buf_items(comps) =~= pushed + app);
                            assert forall|i: int| 0 <= i < buf_items(comps).len() implies plain_comp(
                                #[trigger] buf_items(comps)[i],
                            ) by {
                                if i >= pushed.len() {
                                    assert(buf_items(comps)[i] == app[i - pushed.len()]);
                                } else if i < before.len() {
                                    assert(buf_items(comps)[i] == before[i]);
                                }
                            }
                            assert forall|rest: Seq<Component>| plain_tail_is(t@, q3 as int, rest) implies plain_complex_is(
                                t@,
                                pos as int,
                                buf_items(comps) + rest,
                            ) by {
                                let cs = seq![Component::Combinator(Combinator::Descendant)] + app + rest;
                                let l = app.len() as int;
                                assert(cs.subrange(1, 1 + l) =~= app);
                                assert(cs.skip(1 + l) =~= rest);
                                assert(plain_tail_is(t@, p0 as int, cs));
                                assert(before + cs =~= buf_items(comps) + rest);
                            }
                        }
                    }
                    p = q3;
                    continue ;
                },
                Err(()) => {
                    let ghost grown = buf_items(comps);
                    comps.truncate(saved_len);
                    spec = saved_spec;
                    proof {
                        assert(grown.subrange(0, pushed.len() as int) == pushed);
                        assert(buf_items(comps) =~= before);
                        if plainc {
                            assert(plain_tail_is(t@, p0 as int, Seq::<Component>::empty()));
                            assert(before + Seq::<Component>::empty() =~= before);
                        }
                    }
                    break ;
                },
            }
        }
        proof {
            if plainc {
                assert(plain_tail_is(t@, p0 as int, Seq::<Component>::empty()));
                assert(buf_items(comps) + Seq::<Component>::empty() =~= buf_items(comps));
            }
        }
        break ;
    }
    if sub {
        let ghost pc = buf_items(comps);
        let sel = Selector::from_parse_order_sub(comps.into_vec(), spec);
        proof {
            lemma_weight_reverse(pc);
            lemma_shaped_reverse(pc);
            assert(pc.reverse().reverse() =~= pc);
        }
        return Ok((sel, p));
    }
    proof {
        if plainc {
            assert forall|i: int| 0 <= i < buf_items(comps).len() implies !empty_is_or_where(
                #[trigger] buf_items(comps)[i],
            ) by {
                assert(plain_comp(buf_items(comps)[i]));
            }
        }
    }
    if has_empty_is_or_where(comps.as_slice()) {
        comps.clear();
    }
    let hint = SelectorHints::compute_parse_order(comps.as_slice());
    let ghost pc = buf_items(comps);
    let sel = Selector::from_parse_order(comps.into_vec(), spec, hint);
    proof {
        assert(pc.reverse().reverse() =~= pc);
        lemma_weight_reverse(pc);
        if pc.len() > 0 {
            assert(pc.reverse().len() > 0);
            lemma_shaped_reverse(pc);
        }
    }
    Ok((sel, p))
}

/// Some `:is()` or `:where()` component has an empty argument list.
/// An `:is()` or `:where()` component with an empty argument list.
pub open spec fn empty_is_or_where(c: Component) -> bool {
    match c {
        Component::Is(l) => l.0@.len() == 0,
        Component::Where(l) => l.0@.len() == 0,
        _ => false,
    }
}

fn has_empty_is_or_where(comps: &[Component]) -> (r: bool)
    ensures
        r == exists|i: int| 0 <= i < comps@.len() && empty_is_or_where(#[trigger] comps@[i]),
{
    let mut i: usize = 0;
    while i < comps.len()
        invariant
            i <= comps@.len(),
            forall|k: int| 0 <= k < i ==> !empty_is_or_where(#[trigger] comps@[k]),
        decreases comps@.len() - i,
    {
        let empty = match &comps[i] {
            Component::Is(l) | Component::Where(l) => l.0.len() == 0,
            _ => false,
        };
        if empty {
            return true;
        }
        i = i + 1;
    }
    false
}

/// A namespace prefix `|` right after `pos` (whitespace not skipped).
fn bar_follows(t: &[CssToken], pos: usize) -> (r: bool)
    requires
        pos <= t@.len(),
    ensures
        r == (pos < t@.len() && t@[pos as int].kind == TokenKind::Delim('|')),
        r ==> pos < t@.len() && t@[pos as int].kind is Delim,
{
    is_delim_at(t, pos, '|')
}

/// A type name or `*` stands at `k`.
pub open spec fn type_or_universal_at(t: Seq<CssToken>, k: int) -> bool {
    0 <= k < t.len() && (t[k].kind is Ident || t[k].kind == TokenKind::Delim('*'))
}

/// At `k` stands a namespace prefix (`ns|`, `*|` or `|`) that neither a type
/// name nor `*` follows.
pub open spec fn dangling_namespace(t: Seq<CssToken>, k: int) -> bool {
    ||| type_or_universal_at(t, k) && k + 1 < t.len() && t[k + 1].kind == TokenKind::Delim('|')
        && !type_or_universal_at(t, k + 2)
    ||| 0 <= k < t.len() && t[k].kind == TokenKind::Delim('|') && !type_or_universal_at(t, k + 1)
}

/// No compound selector can begin at `k`: the tokens end there, or the
/// token is none of a type name, `*`, `|` and what begins a subsequent
/// simple selector.
pub open spec fn no_compound_at(t: Seq<CssToken>, k: int) -> bool {
    ||| k >= t.len()
    ||| 0 <= k && !(t[k].kind is Ident || t[k].kind == TokenKind::Delim('*') || t[k].kind
        == TokenKind::Delim('|') || starts_subsequent(t, k))
}

/// A compound selector at `k` fails at its first simple selector: a
/// dangling namespace prefix, or a token that begins no compound.
pub open spec fn compound_fails_at(t: Seq<CssToken>, k: int) -> bool {
    dangling_namespace(t, k) || no_compound_at(t, k)
}

/// After a namespace prefix and `|`: a type or `*`.
fn parse_type_or_universal_after_ns(t: &[CssToken], pos: usize, comps: &mut ComponentBuf, spec: &mut Specificity) -> (r:
    Result<usize, ()>)
    requires
        pos <= t@.len(),
    ensures
        r matches Ok(p) ==> pos <= p <= t@.len() && no_comma(t@, pos as int, p as int),
        grew(buf_items(*old(comps)), *old(spec), buf_items(*final(comps)), *final(spec)),
        !type_or_universal_at(t@, pos as int) ==> r is Err,
{
    proof {
        lemma_grew_refl(buf_items(*comps), *spec);
    }
    if pos >= t.len() {
        return Err(());
    }
    match &t[pos].kind {
        TokenKind::Ident(name) => {
            add_type(spec)?;
            let c = Component::Type(Atom::new(name.as_str()));
            proof {
                lemma_grew_push(buf_items(*old(comps)), *old(spec), c, *spec);
            }
            comps.push(c);
            Ok(pos + 1)
        },
        TokenKind::Delim('*') => {
            proof {
                lemma_grew_push(buf_items(*old(comps)), *old(spec), Component::Universal, *spec);
            }
            comps.push(Component::Universal);
            Ok(pos + 1)
        },
        _ => Err(()),
    }
}

/// Pushes a component of weight 0 (a namespace prefix or `*`).
fn push_weightless(comps: &mut ComponentBuf, spec: &Specificity, c: Component)
    requires
        comp_weight(c) == 0,
        simple_ok(c),
    ensures
        buf_items(*final(comps)) == buf_items(*old(comps)).push(c),
        grew(buf_items(*old(comps)), *spec, buf_items(*final(comps)), *spec),
{
    proof {
        lemma_grew_push(buf_items(*old(comps)), *spec, c, *spec);
    }
    comps.push(c);
}

/// Adds `amount` and then pushes `c`, whose weight it is; on overflow
/// neither happens.
fn push_weighted(comps: &mut ComponentBuf, spec: &mut Specificity, c: Component, amount: u32) -> (r:
    Result<(), ()>)
    requires
        comp_weight(c) == amount,
        simple_ok(c),
    ensures
        r is Ok <==> old(spec).0 + amount <= u32::MAX,
        r is Ok ==> buf_items(*final(comps)) == buf_items(*old(comps)).push(c) && final(spec).0
            == old(spec).0 + amount,
        r is Err ==> buf_items(*final(comps)) == buf_items(*old(comps)) && *final(spec) == *old(spec),
        grew(buf_items(*old(comps)), *old(spec), buf_items(*final(comps)), *final(spec)),
{
    proof {
        lemma_grew_refl(buf_items(*comps), *spec);
    }
    try_add(spec, amount)?;
    proof {
        lemma_grew_push(buf_items(*old(comps)), *old(spec), c, *spec);
    }
    comps.push(c);
    Ok(())
}

/// The token at `k` can begin a simple selector that follows another in a
/// compound: `#id`, `.`, `&`, `[` or `:`.
pub open spec fn starts_subsequent(t: Seq<CssToken>, k: int) -> bool {
    &&& 0 <= k < t.len()
    &&& {
        ||| t[k].kind is IdHash
        ||| t[k].kind == TokenKind::Delim('.')
        ||| t[k].kind == TokenKind::Delim('&')
        ||| t[k].kind is SquareBracketBlock
        ||| t[k].kind is Colon
    }
}

/// The specificity a functional pseudo-class or pseudo-element whose
/// argument alone decides it adds: a class's for `:nth-of-type()`,
/// `:nth-last-of-type()`, `:lang()`, `:dir()` and `:state()`, a type's for
/// `::part()` and `::highlight()`.
pub open spec fn decided_weight(name: Seq<char>) -> int {
    if css_kw_match(name, "nth-of-type"@) || css_kw_match(name, "nth-last-of-type"@)
        || css_kw_match(name, "lang"@) || css_kw_match(name, "dir"@) || css_kw_match(
        name,
        "state"@,
    ) {
        0x1000
    } else {
        1
    }
}

/// A functional pseudo-class or pseudo-element `name(` with its block at
/// `k` whose argument alone decides it and is accepted: the position after
/// it and the specificity it adds.
#[verifier::opaque]
pub open spec fn plain_functional(t: Seq<CssToken>, k: int) -> Option<(int, int)> {
    match t[k].kind {
        TokenKind::Function(name) => if t[k].block_ok && functional_decided(
            name@,
            t[k].block@,
            0,
        ) == Some(true) {
            Some((k + 1, decided_weight(name@)))
        } else {
            None
        },
        _ => None,
    }
}

/// The component `plain_functional` reads at `k` is `c`.
#[verifier::opaque]
pub open spec fn plain_functional_is(t: Seq<CssToken>, k: int, c: Component) -> bool {
    match t[k].kind {
        TokenKind::Function(name) => functional_comp(name@, t[k].block@, c),
        _ => false,
    }
}

/// A pseudo-element that may be written with a single colon.
pub open spec fn single_colon_element(pe: PseudoElement) -> bool {
    pe == PseudoElement::Before || pe == PseudoElement::After || pe == PseudoElement::FirstLine
        || pe == PseudoElement::FirstLetter
}

/// A plain pseudo-class or pseudo-element after its first colon, at `k`:
/// `::name`, a single-colon pseudo-element, `:host` or a pseudo-class name
/// (no argument block). The position after it and the specificity it adds.
#[verifier::opaque]
pub open spec fn plain_pseudo(t: Seq<CssToken>, k: int) -> Option<(int, int)> {
    if k < 0 || k >= t.len() {
        None
    } else {
        match t[k].kind {
            TokenKind::Colon => {
                let j = skip_ws_spec(t, k + 1);
                if j < t.len() {
                    match t[j].kind {
                        TokenKind::Ident(name) => if spec_parse_pseudo_element_name(name@) is Some {
                            Some((j + 1, 1))
                        } else {
                            None
                        },
                        TokenKind::Function(_) => plain_functional(t, j),
                        _ => None,
                    }
                } else {
                    None
                }
            },
            TokenKind::Function(_) => plain_functional(t, k),
            TokenKind::Ident(name) => {
                let pe = spec_parse_pseudo_element_name(name@);
                if pe is Some && single_colon_element(pe->0) {
                    Some((k + 1, 1))
                } else if spec_eq(CaseSensitivity::AsciiCaseInsensitive, name@, "host"@) {
                    Some((k + 1, 0x1000))
                } else if spec_parse_pseudo_class_name(name@) is Some {
                    Some((k + 1, 0x1000))
                } else {
                    None
                }
            },
            _ => None,
        }
    }
}

/// The component `plain_pseudo` reads at `k` is `c`.
#[verifier::opaque]
pub open spec fn plain_pseudo_is(t: Seq<CssToken>, k: int, c: Component) -> bool {
    match t[k].kind {
        TokenKind::Colon => match t[skip_ws_spec(t, k + 1)].kind {
            TokenKind::Ident(name) => spec_parse_pseudo_element_name(name@) matches Some(pe) && c
                == Component::PseudoElement(pe),
            TokenKind::Function(_) => plain_functional_is(t, skip_ws_spec(t, k + 1), c),
            _ => false,
        },
        TokenKind::Function(_) => plain_functional_is(t, k, c),
        TokenKind::Ident(name) => {
            let pe = spec_parse_pseudo_element_name(name@);
            if pe is Some && single_colon_element(pe->0) {
                c == Component::PseudoElement(pe->0)
            } else if spec_eq(CaseSensitivity::AsciiCaseInsensitive, name@, "host"@) {
                c is Host
            } else {
                spec_parse_pseudo_class_name(name@) matches Some(pc) && c == Component::PseudoClass(
                    pc,
                )
            }
        },
        _ => false,
    }
}

/// A plain simple selector (no argument block) that may follow another in
/// a compound, at `k`: `#id`, `.name`, `&`, `[...]` or a plain pseudo-class
/// or pseudo-element; the position after it and the specificity it adds.
pub open spec fn plain_subsequent(t: Seq<CssToken>, k: int) -> Option<(int, int)> {
    if k < 0 || k >= t.len() {
        None
    } else {
        match t[k].kind {
            TokenKind::IdHash(_) => Some((k + 1, 0x1000000)),
            TokenKind::Delim('.') => match ident_after(t, k + 1) {
                Some((_, q)) => Some((q, 0x1000)),
                None => None,
            },
            TokenKind::Delim('&') => Some((k + 1, 0x1000)),
            TokenKind::SquareBracketBlock => if t[k].block_ok && attr_parse(t[k].block@) is Some {
                Some((k + 1, 0x1000))
            } else {
                None
            },
            TokenKind::Colon => plain_pseudo(t, k + 1),
            _ => None,
        }
    }
}

/// The component `plain_subsequent` reads at `k` is `c`.
pub open spec fn plain_subsequent_is(t: Seq<CssToken>, k: int, c: Component) -> bool {
    match t[k].kind {
        TokenKind::IdHash(s) => c matches Component::Id(a) && a@ == s@,
        TokenKind::Delim('.') => c matches Component::Class(a) && ident_after(t, k + 1) matches Some(
            (s, _),
        ) && a@ == s,
        TokenKind::Delim('&') => c is Nesting,
        TokenKind::SquareBracketBlock => c matches Component::Attribute(a) && attr_parse(
            t[k].block@,
        ) == Some(attr_parts(a)),
        TokenKind::Colon => plain_pseudo_is(t, k + 1, c),
        _ => false,
    }
}

/// A plain first simple selector of a compound at `k`: a type name or `*`
/// not followed by `|`, or a plain subsequent simple selector; the position
/// after it and the specificity it adds.
pub open spec fn plain_first(t: Seq<CssToken>, k: int) -> Option<(int, int)> {
    if k < 0 || k >= t.len() {
        None
    } else {
        let bar = k + 1 < t.len() && t[k + 1].kind == TokenKind::Delim('|');
        match t[k].kind {
            TokenKind::Ident(_) => if bar {
                None
            } else {
                Some((k + 1, 1))
            },
            TokenKind::Delim('*') => if bar {
                None
            } else {
                Some((k + 1, 0))
            },
            TokenKind::Delim('|') => None,
            _ => plain_subsequent(t, k),
        }
    }
}

/// The component `plain_first` reads at `k` is `c`.
pub open spec fn plain_first_is(t: Seq<CssToken>, k: int, c: Component) -> bool {
    match t[k].kind {
        TokenKind::Ident(s) => c matches Component::Type(a) && a@ == s@,
        TokenKind::Delim('*') => c is Universal,
        _ => plain_subsequent_is(t, k, c),
    }
}

/// The plain simple selectors that follow the first of a compound, from
/// `k` on: the position where the compound ends, the specificity they add
/// and how many there are; `None` when one that begins there is not plain
/// (a pseudo-class or pseudo-element, or a malformed one).
pub open spec fn plain_run(t: Seq<CssToken>, k: int) -> Option<(int, int, int)>
    decreases t.len() - k,
{
    if !starts_subsequent(t, k) {
        Some((k, 0, 0))
    } else {
        match plain_subsequent(t, k) {
            Some((e, w)) => if k < e <= t.len() {
                match plain_run(t, e) {
                    Some((e2, w2, n2)) => Some((e2, w + w2, n2 + 1)),
                    None => None,
                }
            } else {
                None
            },
            None => None,
        }
    }
}

/// A plain run adds no negative specificity and does not move backwards.
proof fn lemma_plain_run_nonneg(t: Seq<CssToken>, k: int)
    ensures
        plain_run(t, k) matches Some((e, w, n)) ==> w >= 0 && e >= k && n >= 0,
    decreases t.len() - k,
{
    reveal(plain_pseudo);
    reveal(plain_functional);
    if starts_subsequent(t, k) {
        match plain_subsequent(t, k) {
            Some((e, w)) => {
                if k < e <= t.len() {
                    lemma_plain_run_nonneg(t, e);
                }
            },
            None => {},
        }
    }
}

/// A functional pseudo-class decided by its argument gives a plain component.
proof fn lemma_decided_comp_plain(name: Seq<char>, b: Seq<CssToken>, c: Component)
    requires
        functional_decided(name, b, 0) == Some(true),
        functional_comp(name, b, c),
    ensures
        plain_comp(c),
{
}

/// A plain subsequent simple selector gives a plain component.
proof fn lemma_subsequent_plain(t: Seq<CssToken>, k: int, c: Component)
    requires
        plain_subsequent(t, k) is Some,
        plain_subsequent_is(t, k, c),
    ensures
        plain_comp(c),
        !(c is Universal),
{
    reveal(plain_pseudo);
    reveal(plain_functional);
    reveal(plain_pseudo_is);
    reveal(plain_functional_is);
    if t[k].kind is Colon {
        let k1 = k + 1;
        if t[k1].kind is Function {
            let name = t[k1].kind->Function_0;
            lemma_decided_comp_plain(name@, t[k1].block@, c);
        } else if t[k1].kind is Colon {
            let j = skip_ws_spec(t, k1 + 1);
            if t[j].kind is Function {
                let name = t[j].kind->Function_0;
                lemma_decided_comp_plain(name@, t[j].block@, c);
            }
        }
    }
}

/// `cs` are the components `plain_run` reads from `k`, in order.
pub open spec fn plain_run_is(t: Seq<CssToken>, k: int, cs: Seq<Component>) -> bool
    decreases t.len() - k,
{
    if !starts_subsequent(t, k) {
        cs.len() == 0
    } else {
        match plain_subsequent(t, k) {
            Some((e, _)) => k < e <= t.len() && cs.len() > 0 && plain_subsequent_is(t, k, cs[0]) && plain_run_is(
                t,
                e,
                cs.drop_first(),
            ),
            None => false,
        }
    }
}

/// A plain compound selector at `pos` (leading whitespace skipped): simple
/// selectors with no pseudo-class or pseudo-element and no namespace
/// prefix. The position where it ends and the specificity it adds.
pub open spec fn plain_compound(t: Seq<CssToken>, pos: int) -> Option<(int, int)> {
    match plain_first(t, skip_ws_spec(t, pos)) {
        Some((e1, w1)) => match plain_run(t, e1) {
            Some((e, w, _)) => Some((e, w1 + w)),
            None => None,
        },
        None => None,
    }
}

/// The first number of an optional pair (0 for none).
pub open spec fn pair_first(o: Option<(int, int)>) -> int {
    match o {
        Some((a, _)) => a,
        None => 0,
    }
}

/// The second number of an optional pair (0 for none).
pub open spec fn pair_second(o: Option<(int, int)>) -> int {
    match o {
        Some((_, b)) => b,
        None => 0,
    }
}

/// `cs` are the components a plain compound at `pos` appends: its simple
/// selectors in source order, a leading `*` dropped when others follow.
pub open spec fn plain_compound_is(t: Seq<CssToken>, pos: int, cs: Seq<Component>) -> bool {
    let k = skip_ws_spec(t, pos);
    let e1 = pair_first(plain_first(t, k));
    if t[k].kind == TokenKind::Delim('*') && starts_subsequent(t, e1) {
        plain_run_is(t, e1, cs)
    } else {
        cs.len() > 0 && plain_first_is(t, k, cs[0]) && plain_run_is(t, e1, cs.drop_first())
    }
}

/// The number of components a plain compound at `pos` appends.
pub open spec fn plain_compound_len(t: Seq<CssToken>, pos: int) -> int {
    let k = skip_ws_spec(t, pos);
    let e1 = pair_first(plain_first(t, k));
    let n = match plain_run(t, e1) {
        Some((_, _, n)) => n,
        None => 0,
    };
    if t[k].kind == TokenKind::Delim('*') && starts_subsequent(t, e1) {
        n
    } else {
        n + 1
    }
}

/// A component that a plain selector can hold: a type, `*`, id, class, `&`,
/// attribute selector, pseudo-class, pseudo-element, `:host` or combinator.
pub open spec fn plain_comp(c: Component) -> bool {
    c is Type || c is Universal || c is Id || c is Class || c is Nesting || c is Attribute
        || c is Combinator || c is PseudoClass || c is PseudoElement || c is Host || c is NthOfType
        || c is NthLastOfType || c is Lang || c is Dir || c is State || c is Part || c is Highlight
}

/// The components `plain_run_is` accepts are as many as `plain_run` counts,
/// and plain.
proof fn lemma_plain_run_is(t: Seq<CssToken>, k: int, cs: Seq<Component>)
    requires
        plain_run_is(t, k, cs),
    ensures
        plain_run(t, k) matches Some((_, _, n)) && cs.len() == n,
        forall|i: int| 0 <= i < cs.len() ==> plain_comp(#[trigger] cs[i]),
    decreases t.len() - k,
{
    reveal(plain_pseudo_is);
    reveal(plain_functional_is);
    if starts_subsequent(t, k) {
        let e = pair_first(plain_subsequent(t, k));
        lemma_plain_run_is(t, e, cs.drop_first());
        lemma_subsequent_plain(t, k, cs[0]);
        assert forall|i: int| 0 <= i < cs.len() implies plain_comp(#[trigger] cs[i]) by {
            if i > 0 {
                assert(cs[i] == cs.drop_first()[i - 1]);
            }
        }
    }
}

/// The components `plain_compound_is` accepts are `plain_compound_len` many,
/// and plain.
proof fn lemma_plain_compound_is(t: Seq<CssToken>, pos: int, cs: Seq<Component>)
    requires
        plain_compound(t, pos) is Some,
        plain_compound_is(t, pos, cs),
    ensures
        cs.len() == plain_compound_len(t, pos),
        forall|i: int| 0 <= i < cs.len() ==> plain_comp(#[trigger] cs[i]),
{
    reveal(plain_pseudo);
    reveal(plain_functional);
    reveal(plain_pseudo_is);
    reveal(plain_functional_is);
    let k = skip_ws_spec(t, pos);
    let e1 = pair_first(plain_first(t, k));
    if t[k].kind == TokenKind::Delim('*') && starts_subsequent(t, e1) {
        lemma_plain_run_is(t, e1, cs);
    } else {
        lemma_plain_run_is(t, e1, cs.drop_first());
        assert forall|i: int| 0 <= i < cs.len() implies plain_comp(#[trigger] cs[i]) by {
            if i > 0 {
                assert(cs[i] == cs.drop_first()[i - 1]);
            }
        }
    }
}

/// After a compound of a plain complex selector at `p`: the further
/// compounds, each after a combinator or whitespace, up to where the
/// selector ends; its end and the specificity the further compounds add.
/// `None` when what follows is not plain.
pub open spec fn plain_tail(t: Seq<CssToken>, p: int) -> Option<(int, int)>
    decreases t.len() - p,
{
    let q = skip_ws_spec(t, p);
    match combinator_at(t, q) {
        Some((_, q2)) => match plain_compound(t, q2) {
            Some((e, w)) => if e > p && e <= t.len() {
                match plain_tail(t, e) {
                    Some((e2, w2)) => Some((e2, w + w2)),
                    None => None,
                }
            } else {
                None
            },
            None => None,
        },
        None => if q > p && q < t.len() {
            match plain_compound(t, q) {
                Some((e, w)) => if e > p && e <= t.len() {
                    match plain_tail(t, e) {
                        Some((e2, w2)) => Some((e2, w + w2)),
                        None => None,
                    }
                } else {
                    None
                },
                None => if compound_fails_at(t, q) {
                    Some((q, 0))
                } else {
                    None
                },
            }
        } else {
            Some((q, 0))
        },
    }
}

/// `cs` are the components, in parse order, that `plain_tail` reads from
/// `p`: each further compound preceded by its combinator.
pub open spec fn plain_tail_is(t: Seq<CssToken>, p: int, cs: Seq<Component>) -> bool
    decreases t.len() - p,
{
    let q = skip_ws_spec(t, p);
    match combinator_at(t, q) {
        Some((c, q2)) => match plain_compound(t, q2) {
            Some((e, _)) => {
                let l = plain_compound_len(t, q2);
                &&& p < e <= t.len()
                &&& 0 <= l
                &&& cs.len() >= 1 + l
                &&& cs[0] == Component::Combinator(c)
                &&& plain_compound_is(t, q2, cs.subrange(1, 1 + l))
                &&& plain_tail_is(t, e, cs.skip(1 + l))
            },
            None => false,
        },
        None => if q > p && q < t.len() {
            match plain_compound(t, q) {
                Some((e, _)) => {
                    let l = plain_compound_len(t, q);
                    &&& p < e <= t.len()
                    &&& 0 <= l
                    &&& cs.len() >= 1 + l
                    &&& cs[0] == Component::Combinator(Combinator::Descendant)
                    &&& plain_compound_is(t, q, cs.subrange(1, 1 + l))
                    &&& plain_tail_is(t, e, cs.skip(1 + l))
                },
                None => cs.len() == 0,
            }
        } else {
            cs.len() == 0
        },
    }
}

/// A plain compound advances past at least one token and adds no negative
/// specificity.
proof fn lemma_plain_compound_facts(t: Seq<CssToken>, pos: int)
    ensures
        plain_compound(t, pos) matches Some((e, w)) ==> w >= 0 && e > skip_ws_spec(t, pos)
            && skip_ws_spec(t, pos) >= pos,
{
    reveal(plain_pseudo);
    reveal(plain_functional);
    let k = skip_ws_spec(t, pos);
    lemma_skip_ws_ge(t, pos);
    lemma_skip_ws_ge(t, k + 1);
    lemma_skip_ws_ge(t, k + 2);
    let e1 = pair_first(plain_first(t, k));
    lemma_plain_run_nonneg(t, e1);
}

/// Skipping whitespace twice is skipping it once.
proof fn lemma_skip_ws_idem(t: Seq<CssToken>, pos: int)
    ensures
        skip_ws_spec(t, skip_ws_spec(t, pos)) == skip_ws_spec(t, pos),
    decreases t.len() - pos,
{
    if pos < t.len() && t[pos].kind is WhiteSpace {
        lemma_skip_ws_idem(t, pos + 1);
    }
}

/// A plain tail does not move backwards and adds no negative specificity.
proof fn lemma_plain_tail_nonneg(t: Seq<CssToken>, p: int)
    ensures
        plain_tail(t, p) matches Some((e, w)) ==> w >= 0 && e >= p,
    decreases t.len() - p,
{
    let q = skip_ws_spec(t, p);
    lemma_skip_ws_ge(t, p);
    match combinator_at(t, q) {
        Some((_, q2)) => {
            lemma_plain_compound_facts(t, q2);
            match plain_compound(t, q2) {
                Some((e, w)) => {
                    if e > p && e <= t.len() {
                        lemma_plain_tail_nonneg(t, e);
                    }
                },
                None => {},
            }
        },
        None => {
            lemma_plain_compound_facts(t, q);
            match plain_compound(t, q) {
                Some((e, w)) => {
                    if e > p && e <= t.len() {
                        lemma_plain_tail_nonneg(t, e);
                    }
                },
                None => {},
            }
        },
    }
}

/// A plain complex selector at `pos`: plain compounds joined by
/// combinators or whitespace. Its end and its specificity.
pub open spec fn plain_complex(t: Seq<CssToken>, pos: int) -> Option<(int, int)> {
    match plain_compound(t, pos) {
        Some((e, w)) => match plain_tail(t, e) {
            Some((e2, w2)) => Some((e2, w + w2)),
            None => None,
        },
        None => None,
    }
}

/// `cs` are the components of a plain complex selector at `pos`, in parse
/// order (left to right).
pub open spec fn plain_complex_is(t: Seq<CssToken>, pos: int, cs: Seq<Component>) -> bool {
    let l = plain_compound_len(t, pos);
    let e = pair_first(plain_compound(t, pos));
    &&& 0 <= l <= cs.len()
    &&& plain_compound_is(t, pos, cs.take(l))
    &&& plain_tail_is(t, e, cs.skip(l))
}

/// The first simple selector of a compound (leading whitespace skipped).
fn parse_first_simple(t: &[CssToken], pos: usize, comps: &mut ComponentBuf, spec: &mut Specificity) -> (r:
    Result<usize, ()>)
    requires
        pos <= t@.len(),
    ensures
        r matches Ok(p) ==> pos <= p <= t@.len() && no_comma(t@, pos as int, p as int),
        grew(buf_items(*old(comps)), *old(spec), buf_items(*final(comps)), *final(spec)),
        plain_first(t@, skip_ws_spec(t@, pos as int)) matches Some((e, w)) ==> old(spec).0 + w
            <= u32::MAX ==> {
            &&& (r matches Ok(q) && q == e)
            &&& final(spec).0 == old(spec).0 + w
            &&& buf_items(*final(comps)).len() == buf_items(*old(comps)).len() + 1
            &&& buf_items(*final(comps)).drop_last() == buf_items(*old(comps))
            &&& plain_first_is(t@, skip_ws_spec(t@, pos as int), buf_items(*final(comps)).last())
        },
        compound_fails_at(t@, skip_ws_spec(t@, pos as int)) ==> r is Err,
    decreases t@, 2nat,
{
    proof {
        lemma_grew_refl(buf_items(*comps), *spec);
    }
    let k = match next_index(t, pos) {
        Some(k) => k,
        None => {
            return Err(());
        },
    };
    match &t[k].kind {
        TokenKind::Ident(name) => {
            let atom = Atom::new(name.as_str());
            if bar_follows(t, k + 1) {
                push_weightless(comps, spec, Component::Namespace(NamespaceConstraint::Specific(atom)));
                let ghost mid = buf_items(*comps);
                let r = parse_type_or_universal_after_ns(t, k + 2, comps, spec);
                proof {
                    lemma_grew_trans(buf_items(*old(comps)), *old(spec), mid, *old(spec), buf_items(*comps), *spec);
                }
                r
            } else {
                push_weighted(comps, spec, Component::Type(atom), 1)?;
                Ok(k + 1)
            }
        },
        TokenKind::Delim('*') => {
            if bar_follows(t, k + 1) {
                push_weightless(comps, spec, Component::Namespace(NamespaceConstraint::Any));
                let ghost mid = buf_items(*comps);
                let r = parse_type_or_universal_after_ns(t, k + 2, comps, spec);
                proof {
                    lemma_grew_trans(buf_items(*old(comps)), *old(spec), mid, *old(spec), buf_items(*comps), *spec);
                }
                r
            } else {
                push_weightless(comps, spec, Component::Universal);
                Ok(k + 1)
            }
        },
        TokenKind::Delim('|') => {
            push_weightless(comps, spec, Component::Namespace(NamespaceConstraint::NoNamespace));
            let ghost mid = buf_items(*comps);
            let r = parse_type_or_universal_after_ns(t, k + 1, comps, spec);
            proof {
                lemma_grew_trans(buf_items(*old(comps)), *old(spec), mid, *old(spec), buf_items(*comps), *spec);
            }
            r
        },
        _ => parse_subsequent_simple(t, k, comps, spec),
    }
}

/// A simple selector that may follow another in a compound, at `pos`
/// (whitespace not skipped): id, class, `&`, attribute or pseudo.
fn parse_subsequent_simple(
    t: &[CssToken],
    pos: usize,
    comps: &mut ComponentBuf,
    spec: &mut Specificity,
) -> (r: Result<usize, ()>)
    requires
        pos <= t@.len(),
    ensures
        r matches Ok(p) ==> pos <= p <= t@.len() && no_comma(t@, pos as int, p as int),
        grew(buf_items(*old(comps)), *old(spec), buf_items(*final(comps)), *final(spec)),
        plain_subsequent(t@, pos as int) matches Some((e, w)) ==> old(spec).0 + w <= u32::MAX ==> {
            &&& (r matches Ok(q) && q == e)
            &&& final(spec).0 == old(spec).0 + w
            &&& buf_items(*final(comps)).len() == buf_items(*old(comps)).len() + 1
            &&& buf_items(*final(comps)).drop_last() == buf_items(*old(comps))
            &&& plain_subsequent_is(t@, pos as int, buf_items(*final(comps)).last())
        },
        !starts_subsequent(t@, pos as int) ==> r is Err && buf_items(*final(comps)) == buf_items(
            *old(comps),
        ) && *final(spec) == *old(spec),
    decreases t@, 1nat,
{
    proof {
        lemma_grew_refl(buf_items(*comps), *spec);
    }
    if pos >= t.len() {
        return Err(());
    }
    match &t[pos].kind {
        TokenKind::IdHash(id) => {
            push_weighted(comps, spec, Component::Id(Atom::new(id.as_str())), 0x1000000u32)?;
            Ok(pos + 1)
        },
        TokenKind::Delim('.') => {
            let (name, p) = expect_ident(t, pos + 1)?;
            push_weighted(comps, spec, Component::Class(Atom::new(name.as_str())), 0x1000u32)?;
            Ok(p)
        },
        TokenKind::Delim('&') => {
            push_weighted(comps, spec, Component::Nesting, 0x1000u32)?;
            Ok(pos + 1)
        },
        TokenKind::SquareBracketBlock => {
            let b = nested(t, pos)?;
            let attr = parse_attribute_selector(b)?;
            push_weighted(comps, spec, Component::Attribute(attr), 0x1000u32)?;
            Ok(pos + 1)
        },
        TokenKind::Colon => parse_pseudo(t, pos + 1, comps, spec),
        _ => Err(()),
    }
}

/// A compound selector: simple selectors with no whitespace between them.
#[verifier::rlimit(100)]
#[verifier::spinoff_prover]
fn parse_compound_selector(t: &[CssToken], pos: usize, comps: &mut ComponentBuf, spec: &mut Specificity) -> (r:
    Result<usize, ()>)
    requires
        pos <= t@.len(),
    ensures
        r matches Ok(p) ==> pos <= p <= t@.len() && no_comma(t@, pos as int, p as int),
        r is Ok ==> buf_items(*final(comps)).len() > buf_items(*old(comps)).len(),
        r is Err ==> buf_items(*final(comps)) == buf_items(*old(comps)) && *final(spec) == *old(
            spec,
        ),
        grew(buf_items(*old(comps)), *old(spec), buf_items(*final(comps)), *final(spec)),
        plain_compound(t@, pos as int) matches Some((e, w)) ==> old(spec).0 + w <= u32::MAX ==> (
        buf_items(*old(comps)).len() == 0 || !(buf_items(*old(comps)).last() is Namespace)) ==> {
            &&& (r matches Ok(q) && q == e)
            &&& final(spec).0 == old(spec).0 + w
            &&& plain_compound_is(
                t@,
                pos as int,
                buf_items(*final(comps)).subrange(
                    buf_items(*old(comps)).len() as int,
                    buf_items(*final(comps)).len() as int,
                ),
            )
        },
        compound_fails_at(t@, skip_ws_spec(t@, pos as int)) ==> r is Err,
    decreases t@, 3nat,
{
    let ghost c0 = buf_items(*comps);
    let s0 = *spec;
    let start_len = comps.len();
    let ghost k0 = skip_ws_spec(t@, pos as int);
    let ghost e1 = pair_first(plain_first(t@, k0));
    let ghost pc = plain_compound(t@, pos as int);
    let ghost plain = pc is Some && s0.0 + pair_second(pc) <= u32::MAX && (c0.len() == 0 || !(
    c0.last() is Namespace));
    let ghost big_e = pair_first(pc);
    let ghost big_w = pair_second(pc);
    proof {
        lemma_plain_run_nonneg(t@, e1);
    }
    let mut p = match parse_first_simple(t, pos, comps, spec) {
        Ok(q) => q,
        Err(()) => {
            comps.truncate(start_len);
            *spec = s0;
            proof {
                assert(buf_items(*comps) =~= c0);
                lemma_grew_refl(c0, s0);
            }
            pos
        },
    };
    proof {
        if buf_items(*comps).len() == start_len {
            assert(buf_items(*comps) =~= c0);
        }
        lemma_skip_ws_ge(t@, pos as int);
        if compound_fails_at(t@, k0) && k0 > pos {
            assert(t@[pos as int].kind is WhiteSpace);
        }
        if compound_fails_at(t@, k0) {
            assert(!starts_subsequent(t@, pos as int));
            assert(buf_items(*comps).len() == start_len);
        }
        if plain {
            assert(plain_first(t@, k0) is Some);
            let w1 = pair_second(plain_first(t@, k0));
            assert(plain_run(t@, e1) is Some);
            assert(s0.0 + w1 <= u32::MAX);
            assert(p == e1);
            assert(spec.0 == s0.0 + w1);
            assert(buf_items(*comps).len() == start_len + 1);
            let cs = buf_items(*comps).subrange(start_len as int, buf_items(*comps).len() as int);
            assert(cs =~= seq![buf_items(*comps).last()]);
            assert forall|rest: Seq<Component>| plain_run_is(t@, p as int, rest) implies {
                let all = cs + rest;
                all.len() > 0 && plain_first_is(t@, k0, all[0]) && plain_run_is(
                    t@,
                    e1,
                    all.drop_first(),
                )
            } by {
                assert((cs + rest).drop_first() =~= rest);
            }
        }
    }
    loop
        invariant
            pos <= p <= t@.len(),
            no_comma(t@, pos as int, p as int),
            start_len == c0.len(),
            grew(c0, s0, buf_items(*comps), *spec),
            buf_items(*comps).len() == start_len ==> buf_items(*comps) == c0 && *spec == s0,
            k0 == skip_ws_spec(t@, pos as int),
            e1 == pair_first(plain_first(t@, k0)),
            plain ==> buf_items(*comps).len() > start_len,
            compound_fails_at(t@, k0) ==> p == pos && buf_items(*comps).len() == start_len
                && !starts_subsequent(t@, pos as int),
            plain ==> s0.0 + big_w <= u32::MAX,
            plain ==> (plain_run(t@, p as int) matches Some((ee, ww, _)) && ee == big_e && spec.0
                + ww == s0.0 + big_w),
            plain ==> forall|rest: Seq<Component>|
                plain_run_is(t@, p as int, rest) ==> {
                    let all = buf_items(*comps).subrange(
                        start_len as int,
                        buf_items(*comps).len() as int,
                    ) + rest;
                    all.len() > 0 && plain_first_is(t@, k0, all[0]) && plain_run_is(
                        t@,
                        e1,
                        all.drop_first(),
                    )
                },
        ensures
            plain ==> !starts_subsequent(t@, p as int),
            pos <= p <= t@.len(),
            no_comma(t@, pos as int, p as int),
            grew(c0, s0, buf_items(*comps), *spec),
            buf_items(*comps).len() == start_len ==> buf_items(*comps) == c0 && *spec == s0,
            plain ==> buf_items(*comps).len() > start_len,
            compound_fails_at(t@, k0) ==> p == pos && buf_items(*comps).len() == start_len
                && !starts_subsequent(t@, pos as int),
            plain ==> (plain_run(t@, p as int) matches Some((ee, ww, _)) && ee == big_e && spec.0
                + ww == s0.0 + big_w),
            plain ==> forall|rest: Seq<Component>|
                plain_run_is(t@, p as int, rest) ==> {
                    let all = buf_items(*comps).subrange(
                        start_len as int,
                        buf_items(*comps).len() as int,
                    ) + rest;
                    all.len() > 0 && plain_first_is(t@, k0, all[0]) && plain_run_is(
                        t@,
                        e1,
                        all.drop_first(),
                    )
                },
        decreases t@.len() - p,
    {
        let ghost c1 = buf_items(*comps);
        let s1 = *spec;
        let len1 = comps.len();
        proof {
            lemma_plain_run_nonneg(t@, p as int);
            if plain && starts_subsequent(t@, p as int) {
                let ps = plain_subsequent(t@, p as int);
                assert(ps is Some);
                let e = pair_first(ps);
                let w = pair_second(ps);
                assert(e > p);
                lemma_plain_run_nonneg(t@, e);
                let pr = plain_run(t@, e);
                assert(pr is Some);
                match pr {
                    Some((e2, w2, n2)) => {
                        assert(plain_run(t@, p as int) == Some((e2, w + w2, n2 + 1)));
                        assert(w2 >= 0);
                    },
                    None => {},
                }
                assert(spec.0 + w <= u32::MAX);
            }
        }
        let r = parse_subsequent_simple(t, p, comps, spec);
        match r {
            Ok(q) => {
                proof {
                    lemma_grew_trans(c0, s0, c1, s1, buf_items(*comps), *spec);
                }
                proof {
                    if buf_items(*comps).len() == start_len {
                        assert(buf_items(*comps) =~= c0);
                    }
                    if plain {
                        assert(starts_subsequent(t@, p as int));
                        assert(plain_subsequent(t@, p as int) is Some);
                        assert(q as int == pair_first(plain_subsequent(t@, p as int)));
                        assert(q > p);
                    }
                }
                if q == p {
                    break ;
                }
                proof {
                    if plain {
                        let c = buf_items(*comps).last();
                        let app0 = c1.subrange(start_len as int, c1.len() as int);
                        let app1 = buf_items(*comps).subrange(
                            start_len as int,
                            buf_items(*comps).len() as int,
                        );
                        assert(app1 =~= app0.push(c));
                        assert forall|rest: Seq<Component>| plain_run_is(t@, q as int, rest) implies {
                            let all = app1 + rest;
                            all.len() > 0 && plain_first_is(t@, k0, all[0]) && plain_run_is(
                                t@,
                                e1,
                                all.drop_first(),
                            )
                        } by {
                            let r2 = seq![c] + rest;
                            assert(r2.drop_first() =~= rest);
                            assert(plain_run_is(t@, p as int, r2));
                            assert(app0 + r2 =~= app1 + rest);
                        }
                    }
                }
                p = q;
            },
            Err(()) => {
                comps.truncate(len1);
                *spec = s1;
                proof {
                    assert(buf_items(*comps) =~= c1);
                }
                break ;
            },
        }
    }
    if comps.len() == start_len {
        return Err(());
    }
    proof {
        if plain {
            assert(plain_run_is(t@, p as int, Seq::<Component>::empty()));
            let app = buf_items(*comps).subrange(start_len as int, buf_items(*comps).len() as int);
            assert(app + Seq::<Component>::empty() =~= app);
        }
    }
    let ghost app_before = buf_items(*comps).subrange(start_len as int, buf_items(*comps).len() as int);
    proof {
        if plain && !(t@[k0].kind is Ident) && t@[k0].kind != TokenKind::Delim('*') {
            lemma_subsequent_plain(t@, k0, app_before[0]);
        }
    }
    if comps.len() > start_len && comps.len() - start_len > 1 && is_universal(comps.get(start_len)) && (start_len == 0
        || !is_namespace(comps.get(start_len - 1))) {
        let ghost c1 = buf_items(*comps);
        comps.remove(start_len);
        proof {
            lemma_weight_remove(c1, start_len as int);
            assert(buf_items(*comps).subrange(0, start_len as int) =~= c1.subrange(0, start_len as int));
            assert forall|k: int| c0.len() <= k < buf_items(*comps).len() implies simple_ok(
                #[trigger] buf_items(*comps)[k],
            ) by {
                assert(buf_items(*comps)[k] == c1[k + 1]);
            }
            assert(buf_items(*comps).subrange(start_len as int, buf_items(*comps).len() as int)
                =~= app_before.drop_first());
        }
    }
    Ok(p)
}

fn is_universal(c: &Component) -> (r: bool)
    ensures
        r <==> *c is Universal,
{
    match c {
        Component::Universal => true,
        _ => false,
    }
}

fn is_namespace(c: &Component) -> (r: bool)
    ensures
        r <==> *c is Namespace,
{
    match c {
        Component::Namespace(_) => true,
        _ => false,
    }
}

/// After `:`: a pseudo-class or, after `::`, a pseudo-element.
fn parse_pseudo(t: &[CssToken], pos: usize, comps: &mut ComponentBuf, spec: &mut Specificity) -> (r:
    Result<usize, ()>)
    requires
        pos <= t@.len(),
    ensures
        r matches Ok(p) ==> pos <= p <= t@.len() && no_comma(t@, pos as int, p as int),
        grew(buf_items(*old(comps)), *old(spec), buf_items(*final(comps)), *final(spec)),
        plain_pseudo(t@, pos as int) matches Some((e, w)) ==> old(spec).0 + w <= u32::MAX ==> {
            &&& (r matches Ok(q) && q == e)
            &&& final(spec).0 == old(spec).0 + w
            &&& buf_items(*final(comps)).len() == buf_items(*old(comps)).len() + 1
            &&& buf_items(*final(comps)).drop_last() == buf_items(*old(comps))
            &&& plain_pseudo_is(t@, pos as int, buf_items(*final(comps)).last())
        },
    decreases t@, 0nat,
{
    proof {
        lemma_grew_refl(buf_items(*comps), *spec);
        reveal(plain_pseudo);
        reveal(plain_pseudo_is);
        reveal(plain_functional);
        reveal(plain_functional_is);
    }
    if pos >= t.len() {
        return Err(());
    }
    match &t[pos].kind {
        TokenKind::Colon => {
            let k = match next_index(t, pos + 1) {
                Some(k) => k,
                None => {
                    return Err(());
                },
            };
            match &t[k].kind {
                TokenKind::Ident(name) => {
                    match parse_pseudo_element_name(name.as_str()) {
                        Some(pe) => {
                            push_weighted(comps, spec, Component::PseudoElement(pe), 1)?;
                            Ok(k + 1)
                        },
                        None => Err(()),
                    }
                },
                TokenKind::Function(name) => {
                    let b = nested(t, k)?;
                    parse_functional_pseudo(name.as_str(), b, comps, spec)?;
                    proof {
                        let c = buf_items(*comps).last();
                        assert(buf_items(*comps) =~= buf_items(*old(comps)).push(c));
                        lemma_weight_push(buf_items(*old(comps)), c);
                    }
                    Ok(k + 1)
                },
                _ => Err(()),
            }
        },
        TokenKind::Ident(name) => {
            match parse_pseudo_element_name(name.as_str()) {
                Some(pe) => {
                    if pe.allows_single_colon() {
                        push_weighted(comps, spec, Component::PseudoElement(pe), 1)?;
                        return Ok(pos + 1);
                    }
                },
                None => {},
            }
            if CaseSensitivity::AsciiCaseInsensitive.eq_str(name.as_str(), "host") {
                push_weighted(comps, spec, Component::Host, 0x1000u32)?;
                return Ok(pos + 1);
            }
            match parse_pseudo_class_name(name.as_str()) {
                Some(pc) => {
                    push_weighted(comps, spec, Component::PseudoClass(pc), 0x1000u32)?;
                    Ok(pos + 1)
                },
                None => Err(()),
            }
        },
        TokenKind::Function(name) => {
            let b = nested(t, pos)?;
            parse_functional_pseudo(name.as_str(), b, comps, spec)?;
            proof {
                let c = buf_items(*comps).last();
                assert(buf_items(*comps) =~= buf_items(*old(comps)).push(c));
                lemma_weight_push(buf_items(*old(comps)), c);
            }
            Ok(pos + 1)
        },
        _ => Err(()),
    }
}

/// Parses `f`'s argument block to its end (trailing whitespace allowed).
fn entirely(b: &[CssToken], p: usize) -> (r: Result<(), ()>)
    requires
        p <= b@.len(),
    ensures
        r is Ok <==> skip_ws_spec(b@, p as int) == b@.len(),
{
    if is_exhausted(b, p) {
        Ok(())
    } else {
        Err(())
    }
}

/// Skipping whitespace never moves backwards.
pub proof fn lemma_skip_ws_ge(t: Seq<CssToken>, pos: int)
    ensures
        skip_ws_spec(t, pos) >= pos,
        pos <= t.len() ==> skip_ws_spec(t, pos) <= t.len(),
    decreases t.len() - pos,
{
    if pos < t.len() && t[pos].kind is WhiteSpace {
        lemma_skip_ws_ge(t, pos + 1);
    }
}

/// The names after the first one of `:lang()` (`commas`) or `::part()`:
/// from `p` on, each name follows a comma (`commas`) or whitespace, and
/// only whitespace follows the last; `None` when anything else stands there.
pub open spec fn names_after(b: Seq<CssToken>, p: int, commas: bool) -> Option<Seq<Seq<char>>>
    decreases b.len() - p,
{
    proof {
        lemma_skip_ws_ge(b, p);
        lemma_skip_ws_ge(b, skip_ws_spec(b, p) + 1);
    }
    let k = skip_ws_spec(b, p);
    if k >= b.len() {
        Some(Seq::empty())
    } else if commas && !(b[k].kind is Comma) {
        None
    } else {
        let j = if commas {
            skip_ws_spec(b, k + 1)
        } else {
            k
        };
        if j < b.len() {
            match b[j].kind {
                TokenKind::Ident(s) => match names_after(b, j + 1, commas) {
                    Some(rest) => Some(seq![s@] + rest),
                    None => None,
                },
                _ => None,
            }
        } else {
            None
        }
    }
}

/// The names of a `:lang()` (`commas`) or `::part()` argument block: a
/// first name after optional whitespace, then those of `names_after`.
pub open spec fn names_of(b: Seq<CssToken>, commas: bool) -> Option<Seq<Seq<char>>> {
    let k = skip_ws_spec(b, 0);
    if k < b.len() {
        match b[k].kind {
            TokenKind::Ident(s) => match names_after(b, k + 1, commas) {
                Some(rest) => Some(seq![s@] + rest),
                None => None,
            },
            _ => None,
        }
    } else {
        None
    }
}

/// The texts of some names.
pub open spec fn atom_texts(v: Seq<Atom>) -> Seq<Seq<char>> {
    v.map_values(|a: Atom| a@)
}

/// Identifiers separated by commas (`:lang()`), or by whitespace (`::part()`).
fn parse_idents(b: &[CssToken], commas: bool) -> (r: Result<AtomBuf, ()>)
    ensures
        r is Ok <==> names_of(b@, commas) is Some,
        r matches Ok(v) ==> names_of(b@, commas) == Some(atom_texts(v@)),
{
    let ghost res = names_of(b@, commas);
    let mut out = AtomBuf::new();
    let (first, mut p) = expect_ident(b, 0)?;
    let a0 = Atom::new(first.as_str());
    out.push(a0);
    proof {
        assert(atom_texts(out@) =~= seq![first@]);
    }
    loop
        invariant
            0 < p <= b@.len(),
            res == names_of(b@, commas),
            res == (match names_after(b@, p as int, commas) {
                Some(rest) => Some(atom_texts(out@) + rest),
                None => None::<Seq<Seq<char>>>,
            }),
        ensures
            0 < p <= b@.len(),
            res == (match names_after(b@, p as int, commas) {
                Some(rest) => Some(atom_texts(out@) + rest),
                None => None::<Seq<Seq<char>>>,
            }),
            skip_ws_spec(b@, p as int) < b@.len() ==> res is None,
        decreases b@.len() - p,
    {
        let ghost k = skip_ws_spec(b@, p as int);
        let ghost o0 = out@;
        let q = if commas {
            match expect_comma(b, p) {
                Ok(q) => q,
                Err(()) => {
                    break ;
                },
            }
        } else {
            p
        };
        if commas {
            let (id, q2) = match expect_ident(b, q) {
                Ok(x) => x,
                Err(()) => {
                    proof {
                        assert(names_after(b@, p as int, commas) is None);
                    }
                    return Err(());
                },
            };
            let a = Atom::new(id.as_str());
            out.push(a);
            proof {
                assert(atom_texts(out@) =~= atom_texts(o0) + seq![id@]);
                match names_after(b@, q2 as int, commas) {
                    Some(rest) => {
                        assert(atom_texts(o0) + (seq![id@] + rest) =~= atom_texts(out@) + rest);
                    },
                    None => {},
                }
            }
            p = q2;
        } else {
            match expect_ident(b, q) {
                Ok((id, q2)) => {
                    let a = Atom::new(id.as_str());
                    out.push(a);
                    proof {
                        assert(atom_texts(out@) =~= atom_texts(o0) + seq![id@]);
                        match names_after(b@, q2 as int, commas) {
                            Some(rest) => {
                                assert(atom_texts(o0) + (seq![id@] + rest) =~= atom_texts(out@)
                                    + rest);
                            },
                            None => {},
                        }
                    }
                    p = q2;
                },
                Err(()) => {
                    break ;
                },
            }
        }
    }
    proof {
        lemma_skip_ws_ge(b@, p as int);
    }
    entirely(b, p)?;
    proof {
        assert(atom_texts(out@) + Seq::<Seq<char>>::empty() =~= atom_texts(out@));
    }
    Ok(out)
}

/// A single identifier filling the block.
fn parse_single_ident(b: &[CssToken]) -> (r: Result<String, ()>)
    ensures
        r is Ok <==> ({
            let k = skip_ws_spec(b@, 0);
            k < b@.len() && b@[k].kind is Ident && skip_ws_spec(b@, k + 1) == b@.len()
        }),
        r matches Ok(s) ==> b@[skip_ws_spec(b@, 0)].kind == TokenKind::Ident(s),
{
    let (id, p) = expect_ident(b, 0)?;
    let s = id.clone();
    entirely(b, p)?;
    Ok(s)
}

/// The single identifier filling a block (whitespace around it allowed).
pub open spec fn single_ident(b: Seq<CssToken>) -> Option<Seq<char>> {
    let k = skip_ws_spec(b, 0);
    if k < b.len() && skip_ws_spec(b, k + 1) == b.len() {
        match b[k].kind {
            TokenKind::Ident(s) => Some(s@),
            _ => None,
        }
    } else {
        None
    }
}

/// The direction named by a `:dir()` block: `ltr` or `rtl` (ASCII case
/// folded), alone in the block.
pub open spec fn dir_arg(b: Seq<CssToken>) -> Option<Direction> {
    match ident_after(b, 0) {
        Some((s, q)) => if skip_ws_spec(b, q) != b.len() {
            None
        } else if css_kw_match(s, "ltr"@) {
            Some(Direction::Ltr)
        } else if css_kw_match(s, "rtl"@) {
            Some(Direction::Rtl)
        } else {
            None
        },
        None => None,
    }
}

/// The `An+B` of an `:nth-child()`-like component matches its block: the
/// text before the first `of` reads as that `An+B`, and the `of` list is
/// present exactly when an `of` is.
pub open spec fn nth_from_block(b: Seq<CssToken>, n: NthData) -> bool {
    forall|k: int|
        #[trigger] anb_end(b, k) ==> anb_of(text_of(b, 0, k)) == Some((n.a, n.b)) && (n.of_selector
            is None <==> k == b.len())
}

/// The component `c` holds the selectors `sels` as its argument list, as a
/// list or flattened to their single components.
pub open spec fn holds_args(c: Component, sels: Seq<Selector>) -> bool {
    match c {
        Component::Negation(l) => l.0@ == sels,
        Component::Is(l) => l.0@ == sels,
        Component::Where(l) => l.0@ == sels,
        Component::HostFunction(l) => l.0@ == sels,
        Component::HostContext(l) => l.0@ == sels,
        Component::Slotted(l) => l.0@ == sels,
        Component::Host => sels.len() == 0,
        Component::NotSingle(v) => singles_of(v@, sels),
        Component::IsSingle(v) => singles_of(v@, sels),
        Component::WhereSingle(v) => singles_of(v@, sels),
        _ => false,
    }
}

/// `v` are the single components of the one-component selectors `sels`.
pub open spec fn singles_of(v: Seq<Component>, sels: Seq<Selector>) -> bool {
    v.len() == sels.len() && forall|i: int| 0 <= i < v.len() ==> (#[trigger] sels[i]).comps@ == seq![v[i]]
}

/// A `:not()` or `::slotted()` block in which no compound can begin is
/// rejected. Where the argument block `b` of `name` is a plain selector list, the
/// component `c` holds exactly its selectors: the strict list for `:not()`
/// and `::slotted()`, the forgiving one (parts that are not selectors
/// dropped) for `:is()`, `:where()`, `:host()` and `:host-context()`.
pub open spec fn plain_args(name: Seq<char>, b: Seq<CssToken>, c: Component) -> bool {
    if css_kw_match(name, "not"@) {
        &&& !compound_fails_at(b, skip_ws_spec(b, 0))
        &&& plain_list(b, 0) is Some ==> exists|sels: Seq<Selector>|
            #![trigger plain_list_is(b, 0, sels)]
            plain_list_is(b, 0, sels) && holds_args(c, sels)
    } else if css_kw_match(name, "is"@) || css_kw_match(name, "where"@) {
        plain_forgiving(b, 0) is Some ==> exists|sels: Seq<Selector>|
            #![trigger plain_forgiving_is(b, 0, sels)]
            plain_forgiving_is(b, 0, sels) && holds_args(c, sels)
    } else if css_kw_match(name, "has"@) || css_kw_match(name, "nth-child"@) || css_kw_match(
        name,
        "nth-last-child"@,
    ) || css_kw_match(name, "nth-of-type"@) || css_kw_match(name, "nth-last-of-type"@)
        || css_kw_match(name, "lang"@) || css_kw_match(name, "dir"@) || css_kw_match(
        name,
        "state"@,
    ) {
        true
    } else if css_kw_match(name, "host"@) || css_kw_match(name, "host-context"@) {
        plain_forgiving(b, 0) is Some ==> exists|sels: Seq<Selector>|
            #![trigger plain_forgiving_is(b, 0, sels)]
            plain_forgiving_is(b, 0, sels) && holds_args(c, sels)
    } else if css_kw_match(name, "slotted"@) {
        &&& !compound_fails_at(b, skip_ws_spec(b, 0))
        &&& plain_list(b, 0) is Some ==> exists|sels: Seq<Selector>|
            #![trigger plain_list_is(b, 0, sels)]
            plain_list_is(b, 0, sels) && holds_args(c, sels)
    } else {
        true
    }
}

/// The component a functional pseudo-class or pseudo-element `name(b)`
/// gives, when it parses.
pub open spec fn functional_comp(name: Seq<char>, b: Seq<CssToken>, c: Component) -> bool {
    if css_kw_match(name, "not"@) {
        ||| c matches Component::Negation(l) && !has_pseudo_element(l.0@)
        ||| c matches Component::NotSingle(v) && forall|k: int|
            0 <= k < v@.len() ==> !(#[trigger] v@[k] is PseudoElement)
    } else if css_kw_match(name, "is"@) {
        c is Is || c is IsSingle
    } else if css_kw_match(name, "where"@) {
        c is Where || c is WhereSingle
    } else if css_kw_match(name, "has"@) {
        c matches Component::Has(rl) && rl.selectors@.len() > 0 && forall|k: int|
            0 <= k < rl.selectors@.len() ==> !sel_holds_has(#[trigger] rl.selectors@[k].selector)
    } else if css_kw_match(name, "nth-child"@) {
        c matches Component::NthChild(n) && nth_from_block(b, n)
    } else if css_kw_match(name, "nth-last-child"@) {
        c matches Component::NthLastChild(n) && nth_from_block(b, n)
    } else if css_kw_match(name, "nth-of-type"@) {
        c matches Component::NthOfType(x, y) && anb_of(text_of(b, 0, b.len() as int)) == Some((x, y))
    } else if css_kw_match(name, "nth-last-of-type"@) {
        c matches Component::NthLastOfType(x, y) && anb_of(text_of(b, 0, b.len() as int)) == Some(
            (x, y),
        )
    } else if css_kw_match(name, "lang"@) {
        c matches Component::Lang(v) && names_of(b, true) == Some(atom_texts(v@))
    } else if css_kw_match(name, "dir"@) {
        c matches Component::Dir(d) && dir_arg(b) == Some(d)
    } else if css_kw_match(name, "state"@) {
        c matches Component::State(a) && single_ident(b) == Some(a@)
    } else if css_kw_match(name, "host"@) {
        c is Host || c is HostFunction
    } else if css_kw_match(name, "host-context"@) {
        c is HostContext
    } else if css_kw_match(name, "slotted"@) {
        c is Slotted
    } else if css_kw_match(name, "part"@) {
        c matches Component::Part(v) && names_of(b, false) == Some(atom_texts(v@))
    } else if css_kw_match(name, "highlight"@) {
        c matches Component::Highlight(a) && single_ident(b) == Some(a@)
    } else {
        false
    }
}

/// Whether `name(b)` parses, where its argument alone decides that (with
/// `s0` the specificity before it): `None` for the pseudo-classes whose
/// argument is a selector list.
pub open spec fn functional_decided(name: Seq<char>, b: Seq<CssToken>, s0: int) -> Option<bool> {
    if css_kw_match(name, "not"@) || css_kw_match(name, "is"@) || css_kw_match(name, "where"@)
        || css_kw_match(name, "has"@) || css_kw_match(name, "nth-child"@) || css_kw_match(
        name,
        "nth-last-child"@,
    ) {
        None
    } else if css_kw_match(name, "nth-of-type"@) || css_kw_match(name, "nth-last-of-type"@) {
        Some(anb_of(text_of(b, 0, b.len() as int)) is Some && s0 + 0x1000 <= u32::MAX)
    } else if css_kw_match(name, "lang"@) {
        Some(names_of(b, true) is Some && s0 + 0x1000 <= u32::MAX)
    } else if css_kw_match(name, "dir"@) {
        Some(dir_arg(b) is Some && s0 + 0x1000 <= u32::MAX)
    } else if css_kw_match(name, "state"@) {
        Some(single_ident(b) is Some && s0 + 0x1000 <= u32::MAX)
    } else if css_kw_match(name, "host"@) || css_kw_match(name, "host-context"@) || css_kw_match(
        name,
        "slotted"@,
    ) {
        None
    } else if css_kw_match(name, "part"@) {
        Some(names_of(b, false) is Some && s0 + 1 <= u32::MAX)
    } else if css_kw_match(name, "highlight"@) {
        Some(single_ident(b) is Some && s0 + 1 <= u32::MAX)
    } else {
        Some(false)
    }
}

/// A functional pseudo-class or pseudo-element, with its argument block.
fn parse_functional_pseudo(name: &str, b: &[CssToken], comps: &mut ComponentBuf, spec: &mut Specificity) -> (r:
    Result<(), ()>)
    ensures
        grew(buf_items(*old(comps)), *old(spec), buf_items(*final(comps)), *final(spec)),
        r is Err ==> buf_items(*final(comps)) == buf_items(*old(comps)) && *final(spec) == *old(
            spec,
        ),
        r is Ok ==> buf_items(*final(comps)).len() == buf_items(*old(comps)).len() + 1
            && buf_items(*final(comps)).drop_last() == buf_items(*old(comps)) && functional_comp(
            name@,
            b@,
            buf_items(*final(comps)).last(),
        ),
        functional_decided(name@, b@, old(spec).0 as int) matches Some(ok) ==> (r is Ok <==> ok),
        r is Ok ==> plain_args(name@, b@, buf_items(*final(comps)).last()),
        plain_list(b@, 0) matches Some((e, _)) ==> (css_kw_match(name@, "not"@) && skip_ws_spec(
            b@,
            e,
        ) == b@.len()) ==> exists|sels: Seq<Selector>|
            #![trigger plain_list_is(b@, 0, sels)]
            plain_list_is(b@, 0, sels) && (!has_pseudo_element(sels) && old(spec).0 + max_weight(
                sels,
            ) <= u32::MAX ==> r is Ok),
        !css_kw_match(name@, "not"@) && css_kw_match(name@, "is"@) ==> plain_forgiving(b@, 0)
            is Some ==> exists|sels: Seq<Selector>|
            #![trigger plain_forgiving_is(b@, 0, sels)]
            plain_forgiving_is(b@, 0, sels) && (old(spec).0 + max_weight(sels) <= u32::MAX
                ==> r is Ok),
        !css_kw_match(name@, "not"@) && !css_kw_match(name@, "is"@) && css_kw_match(
            name@,
            "where"@,
        ) ==> r is Ok,
    decreases b@, 9nat,
{
    proof {
        lemma_grew_refl(buf_items(*comps), *spec);
    }
    if css_kw_eq(name, "not") {
        let (list, p) = parse_list(b, 0, true, false)?;
        entirely(b, p)?;
        if contains_pseudo_element(list.as_slice()) {
            return Err(());
        }
        let m = max_specificity_value(list.as_slice());
        let ghost lv = list@;
        match extract_flat_singles(list) {
            Ok(singles) => {
                proof {
                    lemma_singles_max(lv, singles@);
                    lemma_singles_simple(lv, singles@);
                    assert forall|k: int| 0 <= k < singles@.len() implies !(
                    #[trigger] singles@[k] is PseudoElement) by {
                        assert(lv[k].comps@ == seq![singles@[k]]);
                        assert(lv[k].comps@[0] == singles@[k]);
                    }
                }
                push_weighted(comps, spec, Component::NotSingle(singles), m)?;
            },
            Err(list) => {
                push_weighted(comps, spec, Component::Negation(SelectorList(list)), m)?;
            },
        }
        proof {
            assert(holds_args(buf_items(*comps).last(), lv));
            assert(plain_list(b@, 0) is Some ==> plain_list_is(b@, 0, lv));
        }
        Ok(())
    } else if css_kw_eq(name, "is") {
        let (list, p) = parse_list(b, 0, true, true)?;
        entirely(b, p)?;
        let m = max_specificity_value(list.as_slice());
        let ghost lv = list@;
        match extract_flat_singles(list) {
            Ok(singles) => {
                proof {
                    lemma_singles_max(lv, singles@);
                    lemma_singles_simple(lv, singles@);
                }
                push_weighted(comps, spec, Component::IsSingle(singles), m)?;
            },
            Err(list) => {
                push_weighted(comps, spec, Component::Is(SelectorList(list)), m)?;
            },
        }
        proof {
            assert(holds_args(buf_items(*comps).last(), lv));
            assert(plain_forgiving(b@, 0) is Some ==> plain_forgiving_is(b@, 0, lv));
        }
        Ok(())
    } else if css_kw_eq(name, "where") {
        let (list, p) = parse_list(b, 0, true, true)?;
        entirely(b, p)?;
        let ghost lv = list@;
        match extract_flat_singles(list) {
            Ok(singles) => {
                proof {
                    lemma_singles_simple(lv, singles@);
                }
                push_weightless(comps, spec, Component::WhereSingle(singles))
            },
            Err(list) => push_weightless(comps, spec, Component::Where(SelectorList(list))),
        }
        proof {
            assert(holds_args(buf_items(*comps).last(), lv));
            assert(plain_forgiving(b@, 0) is Some ==> plain_forgiving_is(b@, 0, lv));
        }
        Ok(())
    } else if css_kw_eq(name, "has") {
        let rel = parse_relative_selector_list(b)?;
        if rel.selectors.len() == 0 {
            return Err(());
        }
        let mut i: usize = 0;
        while i < rel.selectors.len()
            invariant
                i <= rel.selectors@.len(),
                grew(buf_items(*old(comps)), *old(spec), buf_items(*comps), *spec),
                buf_items(*comps) == buf_items(*old(comps)),
                *spec == *old(spec),
                css_kw_match(name@, "has"@),
                !css_kw_match(name@, "not"@),
                !css_kw_match(name@, "is"@),
                !css_kw_match(name@, "where"@),
                forall|k: int| 0 <= k < i ==> !sel_holds_has(#[trigger] rel.selectors@[k].selector),
            decreases rel.selectors@.len() - i,
        {
            if contains_has(&rel.selectors[i].selector) {
                return Err(());
            }
            i = i + 1;
        }
        let best = rel_max_specificity(rel.selectors.as_slice());
        push_weighted(comps, spec, Component::Has(rel), best)?;
        Ok(())
    } else if css_kw_eq(name, "nth-child") || css_kw_eq(name, "nth-last-child") {
        let last = !css_kw_eq(name, "nth-child");
        let nth = parse_nth_with_of(b)?;
        let m = match &nth.of_selector {
            Some(of) => max_specificity_value(of.0.as_slice()),
            None => 0,
        };
        let ghost s0 = *spec;
        add_two(spec, 0x1000u32, m)?;
        let c = if last {
            Component::NthLastChild(nth)
        } else {
            Component::NthChild(nth)
        };
        proof {
            lemma_grew_push(buf_items(*old(comps)), s0, c, *spec);
        }
        comps.push(c);
        Ok(())
    } else if css_kw_eq(name, "nth-of-type") || css_kw_eq(name, "nth-last-of-type") {
        let last = !css_kw_eq(name, "nth-of-type");
        let text = tokens_text(b, 0, b.len());
        let (a, bb) = match parse_anb(text.as_str()) {
            Some(ab) => ab,
            None => {
                proof {
                    assert(anb_of(text_of(b@, 0, b@.len() as int)) is None);
                    assert(functional_decided(name@, b@, old(spec).0 as int) == Some(false));
                }
                return Err(());
            },
        };
        if last {
            push_weighted(comps, spec, Component::NthLastOfType(a, bb), 0x1000u32)?;
        } else {
            push_weighted(comps, spec, Component::NthOfType(a, bb), 0x1000u32)?;
        }
        Ok(())
    } else if css_kw_eq(name, "lang") {
        let langs = parse_idents(b, true)?;
        push_weighted(comps, spec, Component::Lang(langs), 0x1000u32)?;
        Ok(())
    } else if css_kw_eq(name, "dir") {
        let (id, p) = expect_ident(b, 0)?;
        let dir = if css_kw_eq(id.as_str(), "ltr") {
            Direction::Ltr
        } else if css_kw_eq(id.as_str(), "rtl") {
            Direction::Rtl
        } else {
            return Err(());
        };
        entirely(b, p)?;
        push_weighted(comps, spec, Component::Dir(dir), 0x1000u32)?;
        Ok(())
    } else if css_kw_eq(name, "state") {
        let s = parse_single_ident(b)?;
        push_weighted(comps, spec, Component::State(Atom::new(s.as_str())), 0x1000u32)?;
        Ok(())
    } else if css_kw_eq(name, "host") {
        let (list, p) = parse_list(b, 0, true, true)?;
        entirely(b, p)?;
        let ghost lv = list@;
        if list.len() == 0 {
            push_weighted(comps, spec, Component::Host, 0x1000u32)?;
        } else {
            let m = max_specificity_value(list.as_slice());
            let ghost s0 = *spec;
            add_two(spec, m, 0x1000u32)?;
            let c = Component::HostFunction(SelectorList(list));
            proof {
                lemma_grew_push(buf_items(*old(comps)), s0, c, *spec);
            }
            comps.push(c);
        }
        proof {
            assert(holds_args(buf_items(*comps).last(), lv));
            assert(plain_forgiving(b@, 0) is Some ==> plain_forgiving_is(b@, 0, lv));
        }
        Ok(())
    } else if css_kw_eq(name, "host-context") {
        let (list, p) = parse_list(b, 0, true, true)?;
        entirely(b, p)?;
        let ghost lv = list@;
        let m = max_specificity_value(list.as_slice());
        let ghost s0 = *spec;
        add_two(spec, m, 0x1000u32)?;
        let c = Component::HostContext(SelectorList(list));
        proof {
            lemma_grew_push(buf_items(*old(comps)), s0, c, *spec);
        }
        comps.push(c);
        proof {
            assert(holds_args(buf_items(*comps).last(), lv));
            assert(plain_forgiving(b@, 0) is Some ==> plain_forgiving_is(b@, 0, lv));
        }
        Ok(())
    } else if css_kw_eq(name, "slotted") {
        let (list, p) = parse_list(b, 0, true, false)?;
        entirely(b, p)?;
        let ghost lv = list@;
        let m = max_specificity_value(list.as_slice());
        let ghost s0 = *spec;
        add_two(spec, m, 1u32)?;
        let c = Component::Slotted(SelectorList(list));
        proof {
            lemma_grew_push(buf_items(*old(comps)), s0, c, *spec);
        }
        comps.push(c);
        proof {
            assert(holds_args(buf_items(*comps).last(), lv));
            assert(plain_list(b@, 0) is Some ==> plain_list_is(b@, 0, lv));
        }
        Ok(())
    } else if css_kw_eq(name, "part") {
        let parts = parse_idents(b, false)?;
        push_weighted(comps, spec, Component::Part(parts), 1)?;
        Ok(())
    } else if css_kw_eq(name, "highlight") {
        let s = parse_single_ident(b)?;
        push_weighted(comps, spec, Component::Highlight(Atom::new(s.as_str())), 1)?;
        Ok(())
    } else {
        Err(())
    }
}

/// The `of` keyword, compared ASCII case-insensitively.
pub open spec fn of_keyword(k: TokenKind) -> bool {
    match k {
        TokenKind::Ident(s) => spec_eq(CaseSensitivity::AsciiCaseInsensitive, s@, "of"@),
        _ => false,
    }
}

/// `k` is where the `An+B` part of an `:nth-child()` block ends: at the
/// first `of` keyword, or at the end when there is none.
pub open spec fn anb_end(b: Seq<CssToken>, k: int) -> bool {
    &&& 0 <= k <= b.len()
    &&& forall|j: int| 0 <= j < k ==> !of_keyword(#[trigger] b[j].kind)
    &&& k < b.len() ==> of_keyword(b[k].kind)
}

/// The `of` keyword, compared ASCII case-insensitively.
fn is_of(k: &TokenKind) -> (r: bool)
    ensures
        r == of_keyword(*k),
{
    match k {
        TokenKind::Ident(s) => CaseSensitivity::AsciiCaseInsensitive.eq_str(s.as_str(), "of"),
        _ => false,
    }
}

/// `An+B [of S]` filling the block. The text before the first `of` is read
/// as `An+B`; without `of` that is the whole block.
fn parse_nth_with_of(b: &[CssToken]) -> (r: Result<NthData, ()>)
    ensures
        forall|k: int|
            #[trigger] anb_end(b@, k) ==> {
                &&& anb_of(text_of(b@, 0, k)) is None ==> r is Err
                &&& k == b@.len() ==> (r is Ok <==> anb_of(text_of(b@, 0, k)) is Some)
                &&& r matches Ok(n) ==> {
                    &&& anb_of(text_of(b@, 0, k)) == Some((n.a, n.b))
                    &&& (n.of_selector is None <==> k == b@.len())
                }
            },
        r matches Ok(n) ==> (n.of_selector matches Some(l) ==> all_weight_ok(l.0@) && all_shaped(
            l.0@,
        )),
    decreases b@, 7nat,
{
    let mut k: usize = 0;
    while k < b.len() && !is_of(&b[k].kind)
        invariant
            k <= b@.len(),
            forall|j: int| 0 <= j < k ==> !of_keyword(#[trigger] b@[j].kind),
        decreases b@.len() - k,
    {
        k = k + 1;
    }
    proof {
        assert(anb_end(b@, k as int));
        assert forall|k2: int| #[trigger] anb_end(b@, k2) implies k2 == k by {
            if k2 < k {
                assert(!of_keyword(b@[k2].kind));
            } else if k2 > k {
                assert(!of_keyword(b@[k as int].kind));
            }
        }
    }
    let text = tokens_text(b, 0, k);
    let (a, bb) = match parse_anb(text.as_str()) {
        Some(ab) => ab,
        None => {
            return Err(());
        },
    };
    if k == b.len() {
        return Ok(NthData { a, b: bb, of_selector: None });
    }
    let (list, p) = parse_list(b, k + 1, true, false)?;
    entirely(b, p)?;
    Ok(NthData { a, b: bb, of_selector: Some(SelectorList(list)) })
}

/// The argument of `:has()`: relative selectors; invalid ones are dropped.
fn parse_relative_selector_list(b: &[CssToken]) -> (r: Result<RelativeSelectorList, ()>)
    ensures
        r matches Ok(rl) ==> forall|k: int|
            0 <= k < rl.selectors@.len() ==> weight_ok(#[trigger] rl.selectors@[k].selector)
                && sel_shaped(rl.selectors@[k].selector),
    decreases b@, 7nat,
{
    let mut sels: Vec<RelativeSelector> = Vec::new();
    let mut p: usize = 0;
    match parse_relative_selector(b, p) {
        Ok((s, q)) => {
            sels.push(s);
            p = q;
        },
        Err(()) => {},
    }
    loop
        invariant
            p <= b@.len(),
            forall|k: int|
                0 <= k < sels@.len() ==> weight_ok(#[trigger] sels@[k].selector) && sel_shaped(
                    sels@[k].selector,
                ),
        decreases b@.len() - p,
    {
        let k = match expect_comma(b, p) {
            Ok(k) => k,
            Err(()) => {
                break ;
            },
        };
        p = k;
        match parse_relative_selector(b, p) {
            Ok((s, q)) => {
                sels.push(s);
                p = q;
            },
            Err(()) => {},
        }
    }
    entirely(b, p)?;
    let mut rl = RelativeSelectorList { selectors: sels, cache_key: 0 };
    let text = rl.to_css_string();
    rl.cache_key = hash_str(text.as_str()) as usize;
    Ok(rl)
}

/// The leading combinator of a relative selector at `pos` (after optional
/// whitespace): `>`, `+` or `~`, and the descendant combinator otherwise.
pub open spec fn leading_combinator(b: Seq<CssToken>, pos: int) -> Combinator {
    let k = skip_ws_spec(b, pos);
    if k < b.len() && b[k].kind == TokenKind::Delim('>') {
        Combinator::Child
    } else if k < b.len() && b[k].kind == TokenKind::Delim('+') {
        Combinator::NextSibling
    } else if k < b.len() && b[k].kind == TokenKind::Delim('~') {
        Combinator::LaterSibling
    } else {
        Combinator::Descendant
    }
}

/// One relative selector: an optional leading combinator and a selector.
fn parse_relative_selector(b: &[CssToken], pos: usize) -> (r: Result<(RelativeSelector, usize), ()>)
    requires
        pos <= b@.len(),
    ensures
        r matches Ok((rs, p)) ==> pos <= p <= b@.len() && weight_ok(rs.selector) && sel_shaped(
            rs.selector,
        ),
        r matches Ok((rs, _)) ==> rs.combinator == leading_combinator(b@, pos as int)
            && rs.traversal == spec_traversal(
            rs.combinator,
            rs.selector.hint.deps.has_bit(DEP_COMBINATORS),
        ),
    decreases b@, 6nat,
{
    let mut p = pos;
    let mut combinator = Combinator::Descendant;
    match next_index(b, pos) {
        Some(k) => match &b[k].kind {
            TokenKind::Delim('>') => {
                combinator = Combinator::Child;
                p = k + 1;
            },
            TokenKind::Delim('+') => {
                combinator = Combinator::NextSibling;
                p = k + 1;
            },
            TokenKind::Delim('~') => {
                combinator = Combinator::LaterSibling;
                p = k + 1;
            },
            _ => {},
        },
        None => {},
    }
    let (selector, q) = parse_complex_selector(b, p, true)?;
    let traversal = HasTraversal::from_combinator(
        combinator,
        selector.hints().deps.has_combinators(),
    );
    Ok((RelativeSelector { combinator, selector, traversal }, q))
}

/// The identifier after optional whitespace from `p`, and the position
/// after it.
pub open spec fn ident_after(b: Seq<CssToken>, p: int) -> Option<(Seq<char>, int)> {
    let k = skip_ws_spec(b, p);
    if k < b.len() {
        match b[k].kind {
            TokenKind::Ident(s) => Some((s@, k + 1)),
            _ => None,
        }
    } else {
        None
    }
}

/// The attribute name at the start of a `[...]` block (after `*|`, `|` or
/// `ns|`, a namespace prefix that is read and dropped), and the position
/// after it.
pub open spec fn attr_name_at(b: Seq<CssToken>) -> Option<(Seq<char>, int)> {
    let k = skip_ws_spec(b, 0);
    if k >= b.len() {
        None
    } else {
        let k2 = skip_ws_spec(b, k + 1);
        let bar = k2 < b.len() && b[k2].kind == TokenKind::Delim('|');
        match b[k].kind {
            TokenKind::Delim('*') => if bar {
                ident_after(b, k2 + 1)
            } else {
                None
            },
            TokenKind::Delim('|') => ident_after(b, k + 1),
            TokenKind::Ident(v) => if bar {
                ident_after(b, k2 + 1)
            } else {
                Some((v@, k + 1))
            },
            _ => None,
        }
    }
}

/// The character naming an attribute operator token.
pub open spec fn attr_op_char(k: TokenKind) -> Option<char> {
    match k {
        TokenKind::Delim('=') => Some('='),
        TokenKind::IncludeMatch => Some('~'),
        TokenKind::DashMatch => Some('|'),
        TokenKind::PrefixMatch => Some('^'),
        TokenKind::SuffixMatch => Some('$'),
        TokenKind::SubstringMatch => Some('*'),
        _ => None,
    }
}

/// The value of an attribute value token.
pub open spec fn attr_value_text(k: TokenKind) -> Option<Seq<char>> {
    match k {
        TokenKind::Ident(v) => Some(v@),
        TokenKind::QuotedString(v) => Some(v@),
        _ => None,
    }
}

/// The case flag after an attribute value at `p` and the position after
/// it: `i`/`I` for ASCII case-insensitive, `s`/`S` (or nothing) for
/// case-sensitive. Another identifier is not taken as a flag.
pub open spec fn attr_flag_at(b: Seq<CssToken>, p: int) -> (CaseSensitivity, int) {
    match ident_after(b, p) {
        Some((f, q)) => if f == "i"@ || f == "I"@ {
            (CaseSensitivity::AsciiCaseInsensitive, q)
        } else if f == "s"@ || f == "S"@ {
            (CaseSensitivity::CaseSensitive, q)
        } else {
            (CaseSensitivity::CaseSensitive, p)
        },
        None => (CaseSensitivity::CaseSensitive, p),
    }
}

/// What a `[...]` block reads as: the attribute name, and the operator
/// character, value and case flag (`None` for a presence test); `None`
/// when the block is not an attribute selector.
pub open spec fn attr_parse(b: Seq<CssToken>) -> Option<
    (Seq<char>, Option<(char, Seq<char>, CaseSensitivity)>),
> {
    match attr_name_at(b) {
        None => None,
        Some((name, p)) => {
            let ko = skip_ws_spec(b, p);
            if ko >= b.len() {
                Some((name, None))
            } else {
                match attr_op_char(b[ko].kind) {
                    None => None,
                    Some(op) => {
                        let kv = skip_ws_spec(b, ko + 1);
                        if kv >= b.len() {
                            None
                        } else {
                            match attr_value_text(b[kv].kind) {
                                None => None,
                                Some(v) => {
                                    let (case, p2) = attr_flag_at(b, kv + 1);
                                    if skip_ws_spec(b, p2) == b.len() {
                                        Some((name, Some((op, v, case))))
                                    } else {
                                        None
                                    }
                                },
                            }
                        }
                    },
                }
            }
        },
    }
}

/// The parts of an attribute selector, as `attr_parse` gives them.
pub open spec fn attr_parts(a: AttrSelector) -> (
    Seq<char>,
    Option<(char, Seq<char>, CaseSensitivity)>,
) {
    (
        a.name@,
        match a.operation {
            AttrOperation::Exists => None,
            AttrOperation::Equals(v, c) => Some(('=', v@, c)),
            AttrOperation::Includes(v, c) => Some(('~', v@, c)),
            AttrOperation::DashMatch(v, c) => Some(('|', v@, c)),
            AttrOperation::Prefix(v, c) => Some(('^', v@, c)),
            AttrOperation::Suffix(v, c) => Some(('$', v@, c)),
            AttrOperation::Substring(v, c) => Some(('*', v@, c)),
        },
    )
}

/// The attribute selector filling a `[...]` block.
fn parse_attribute_selector(b: &[CssToken]) -> (r: Result<AttrSelector, ()>)
    ensures
        r is Ok <==> attr_parse(b@) is Some,
        r matches Ok(a) ==> attr_parse(b@) == Some(attr_parts(a)),
{
    let k = match next_index(b, 0) {
        Some(k) => k,
        None => {
            return Err(());
        },
    };
    let (name, p) = match &b[k].kind {
        TokenKind::Delim('*') => {
            match next_index(b, k + 1) {
                Some(k2) => {
                    if !is_delim_at(b, k2, '|') {
                        return Err(());
                    }
                    let (id, q) = expect_ident(b, k2 + 1)?;
                    (Atom::new(id.as_str()), q)
                },
                None => {
                    return Err(());
                },
            }
        },
        TokenKind::Delim('|') => {
            let (id, q) = expect_ident(b, k + 1)?;
            (Atom::new(id.as_str()), q)
        },
        TokenKind::Ident(v) => {
            let atom = Atom::new(v.as_str());
            let bar = match next_index(b, k + 1) {
                Some(k2) => {
                    if is_delim_at(b, k2, '|') {
                        Some(k2)
                    } else {
                        None
                    }
                },
                None => None,
            };
            match bar {
                Some(k2) => {
                    let (id, q) = expect_ident(b, k2 + 1)?;
                    (Atom::new(id.as_str()), q)
                },
                None => (atom, k + 1),
            }
        },
        _ => {
            return Err(());
        },
    };
    if is_exhausted(b, p) {
        return Ok(AttrSelector { name, operation: AttrOperation::Exists });
    }
    let ko = match next_index(b, p) {
        Some(ko) => ko,
        None => {
            return Err(());
        },
    };
    let op: char = match &b[ko].kind {
        TokenKind::Delim('=') => '=',
        TokenKind::IncludeMatch => '~',
        TokenKind::DashMatch => '|',
        TokenKind::PrefixMatch => '^',
        TokenKind::SuffixMatch => '$',
        TokenKind::SubstringMatch => '*',
        _ => {
            return Err(());
        },
    };
    let kv = match next_index(b, ko + 1) {
        Some(kv) => kv,
        None => {
            return Err(());
        },
    };
    let value = match &b[kv].kind {
        TokenKind::Ident(v) => Atom::new(v.as_str()),
        TokenKind::QuotedString(v) => Atom::new(v.as_str()),
        _ => {
            return Err(());
        },
    };
    let mut p2 = kv + 1;
    let mut case = CaseSensitivity::CaseSensitive;
    match expect_ident(b, p2) {
        Ok((flag, q)) => {
            let fs = flag.as_str();
            if css_str_eq(fs, "i") || css_str_eq(fs, "I") {
                case = CaseSensitivity::AsciiCaseInsensitive;
                p2 = q;
            } else if css_str_eq(fs, "s") || css_str_eq(fs, "S") {
                p2 = q;
            }
        },
        Err(()) => {},
    }
    entirely(b, p2)?;
    let operation = match op {
        '=' => AttrOperation::Equals(value, case),
        '~' => AttrOperation::Includes(value, case),
        '|' => AttrOperation::DashMatch(value, case),
        '^' => AttrOperation::Prefix(value, case),
        '$' => AttrOperation::Suffix(value, case),
        _ => AttrOperation::Substring(value, case),
    };
    Ok(AttrSelector { name, operation })
}

/// Exact string equality.
fn css_str_eq(a: &str, b: &str) -> (r: bool)
    ensures
        r == (a@ == b@),
{
    CaseSensitivity::CaseSensitive.eq_str(a, b)
}

/// Parse a selector list from tokens, starting at `pos`: the list and the
/// position after it.
pub fn parse_selector_list(tokens: &[CssToken], pos: usize) -> (r: Result<
    (SelectorList, usize),
    (),
>)
    requires
        pos <= tokens@.len(),
    ensures
        r matches Ok((list, p)) ==> pos <= p <= tokens@.len() && list.0@.len() >= 1 && list_wf(
            list.0@,
        ) && list_specificity_law(list.0@) && list_shape_law(list.0@) && list.0@.len() == 1
            + comma_count(tokens@, pos as int, p as int),
        plain_list(tokens@, pos as int) matches Some((e, _)) ==> (r matches Ok((list, p)) && p
            == e && plain_list_is(tokens@, pos as int, list.0@)),
{
    let (sels, p) = parse_list(tokens, pos, false, false)?;
    Ok((SelectorList(sels), p))
}

/// Parse a selector list that fills the whole token sequence.
pub fn parse_tokens(tokens: &[CssToken]) -> (r: Result<SelectorList, ()>)
    ensures
        r matches Ok(list) ==> list.0@.len() >= 1 && list_wf(list.0@) && list_specificity_law(
            list.0@,
        ) && list_shape_law(list.0@) && list.0@.len() == 1 + comma_count(
            tokens@,
            0,
            tokens@.len() as int,
        ),
        plain_list(tokens@, 0) matches Some((e, _)) ==> (skip_ws_spec(tokens@, e) == tokens@.len()
            <==> r is Ok),
        plain_list(tokens@, 0) matches Some((e, _)) ==> (r matches Ok(list) ==> plain_list_is(
            tokens@,
            0,
            list.0@,
        )),
{
    let (list, p) = parse_selector_list(tokens, 0)?;
    if !is_exhausted(tokens, p) {
        return Err(());
    }
    proof {
        lemma_no_comma_count(tokens@, p as int, tokens@.len() as int);
        lemma_comma_split(tokens@, 0, p as int, tokens@.len() as int);
    }
    Ok(list)
}

/// Parse a CSS selector string into a `SelectorList`.
pub fn parse(css: &str) -> (r: Result<SelectorList, String>)
    ensures
        r matches Ok(list) ==> list.0@.len() >= 1 && list_wf(list.0@) && list_specificity_law(
            list.0@,
        ) && list_shape_law(list.0@),
        exists|ts: Seq<CssToken>|
            #![trigger css_tokens(css@, ts)]
            css_tokens(css@, ts) && (r matches Ok(list) ==> list.0@.len() == 1 + comma_count(
                ts,
                0,
                ts.len() as int,
            )) && (plain_list(ts, 0) matches Some((e, _)) ==> (skip_ws_spec(ts, e) == ts.len()
                <==> r is Ok) && (r matches Ok(list) ==> plain_list_is(ts, 0, list.0@))),
{
    let tokens = tokenize(css);
    let r = match parse_tokens(tokens.as_slice()) {
        Ok(list) => Ok(list),
        Err(()) => Err(String::from_str("invalid selector")),
    };
    proof {
        assert(css_tokens(css@, tokens@));
    }
    r
}

/// Parse a CSS selector string with forgiving semantics: invalid selectors
/// are dropped; the list may be empty.
pub fn parse_forgiving(css: &str) -> (r: SelectorList)
    ensures
        list_wf(r.0@),
        list_specificity_law(r.0@),
        list_shape_law(r.0@),
        exists|ts: Seq<CssToken>|
            #![trigger css_tokens(css@, ts)]
            css_tokens(css@, ts) && r.0@.len() <= 1 + comma_count(ts, 0, ts.len() as int) && (
            plain_forgiving(ts, 0) is Some ==> plain_forgiving_is(ts, 0, r.0@)),
{
    let tokens = tokenize(css);
    let r = match parse_list(tokens.as_slice(), 0, false, true) {
        Ok((sels, _)) => SelectorList(sels),
        Err(()) => SelectorList(Vec::new()),
    };
    proof {
        assert(css_tokens(css@, tokens@));
    }
    r
}

} // verus!
