//! Pseudo-classes and the element state bits they test.
//!
//! State-based pseudo-classes map to one bit of [`ElementState`]; matching
//! them is a single bit test. Structural ones (`:first-child`, `:empty`, ...)
//! need tree queries, and `:scope` needs the matching context.

use vstd::prelude::*;

verus! {

/// Element interaction and form state: one bit per state-based pseudo-class.
#[derive(Debug, Clone, Copy, PartialEq, Eq, Hash, Structural)]
pub struct ElementState(pub u64);

impl ElementState {
    pub const HOVER: u64 = 0x1u64;
    pub const ACTIVE: u64 = 0x2u64;
    pub const FOCUS: u64 = 0x4u64;
    pub const FOCUS_WITHIN: u64 = 0x8u64;
    pub const FOCUS_VISIBLE: u64 = 0x10u64;
    pub const ENABLED: u64 = 0x20u64;
    pub const DISABLED: u64 = 0x40u64;
    pub const CHECKED: u64 = 0x80u64;
    pub const INDETERMINATE: u64 = 0x100u64;
    pub const REQUIRED: u64 = 0x200u64;
    pub const OPTIONAL: u64 = 0x400u64;
    pub const VALID: u64 = 0x800u64;
    pub const INVALID: u64 = 0x1000u64;
    pub const READ_ONLY: u64 = 0x2000u64;
    pub const READ_WRITE: u64 = 0x4000u64;
    pub const PLACEHOLDER_SHOWN: u64 = 0x8000u64;
    pub const DEFAULT: u64 = 0x10000u64;
    pub const TARGET: u64 = 0x20000u64;
    pub const VISITED: u64 = 0x40000u64;
    pub const LINK: u64 = 0x80000u64;
    pub const FULLSCREEN: u64 = 0x100000u64;
    pub const MODAL: u64 = 0x200000u64;
    pub const POPOVER_OPEN: u64 = 0x400000u64;
    pub const DEFINED: u64 = 0x800000u64;
    pub const AUTOFILL: u64 = 0x1000000u64;
    pub const USER_VALID: u64 = 0x2000000u64;
    pub const USER_INVALID: u64 = 0x4000000u64;
    pub const PLAYING: u64 = 0x8000000u64;
    pub const PAUSED: u64 = 0x10000000u64;
    pub const SEEKING: u64 = 0x20000000u64;
    pub const BUFFERING: u64 = 0x40000000u64;
    pub const STALLED: u64 = 0x80000000u64;
    pub const MUTED: u64 = 0x100000000u64;
    pub const VOLUME_LOCKED: u64 = 0x200000000u64;
    pub const BLANK: u64 = 0x400000000u64;
    pub const IN_RANGE: u64 = 0x800000000u64;
    pub const OUT_OF_RANGE: u64 = 0x1000000000u64;
    pub const OPEN: u64 = 0x2000000000u64;
    pub const CLOSED: u64 = 0x4000000000u64;
    pub const PICTURE_IN_PICTURE: u64 = 0x8000000000u64;
    pub const TARGET_WITHIN: u64 = 0x10000000000u64;
    pub const LOCAL_LINK: u64 = 0x20000000000u64;
    pub const CURRENT: u64 = 0x40000000000u64;
    pub const PAST: u64 = 0x80000000000u64;
    pub const FUTURE: u64 = 0x100000000000u64;

    /// No state bit set.
    pub fn empty() -> (r: ElementState)
        ensures
            r.0 == 0,
    {
        ElementState(0u64)
    }

    /// The state with the given bits.
    pub fn from_bits(bits: u64) -> (r: ElementState)
        ensures
            r.0 == bits,
    {
        ElementState(bits)
    }

    /// The bits of this state.
    pub fn bits(self) -> (r: u64)
        ensures
            r == self.0,
    {
        self.0
    }

    /// Whether every bit of `other` is set here.
    pub fn contains(self, other: ElementState) -> (r: bool)
        ensures
            r == (self.0 & other.0 == other.0),
    {
        self.0 & other.0 == other.0
    }

    /// Whether some bit of `other` is set here.
    pub fn intersects(self, other: ElementState) -> (r: bool)
        ensures
            r == (self.0 & other.0 != 0),
    {
        self.0 & other.0 != 0
    }

    /// Whether no bit is set.
    pub fn is_empty(self) -> (r: bool)
        ensures
            r == (self.0 == 0),
    {
        self.0 == 0
    }

    /// The union of two states.
    pub fn union(self, other: ElementState) -> (r: ElementState)
        ensures
            r.0 == self.0 | other.0,
    {
        ElementState(self.0 | other.0)
    }
}

/// Non-functional CSS pseudo-classes.
#[derive(Debug, Clone, Copy, PartialEq, Eq, Hash, Structural)]
pub enum PseudoClass {
    Hover,
    Active,
    Focus,
    FocusWithin,
    FocusVisible,
    Enabled,
    Disabled,
    Checked,
    Indeterminate,
    Required,
    Optional,
    Valid,
    Invalid,
    ReadOnly,
    ReadWrite,
    PlaceholderShown,
    Default,
    Target,
    Visited,
    Link,
    AnyLink,
    Fullscreen,
    Modal,
    PopoverOpen,
    Defined,
    Autofill,
    UserValid,
    UserInvalid,
    Root,
    Empty,
    FirstChild,
    LastChild,
    OnlyChild,
    FirstOfType,
    LastOfType,
    OnlyOfType,
    Scope,
    Playing,
    Paused,
    Seeking,
    Buffering,
    Stalled,
    Muted,
    VolumeLocked,
    Blank,
    InRange,
    OutOfRange,
    Open,
    Closed,
    PictureInPicture,
    TargetWithin,
    LocalLink,
    Current,
    Past,
    Future,
}

/// The index of the state bit tested by a state-based pseudo-class, or -1
/// for pseudo-classes that are not a single state bit.
pub open spec fn state_bit_index(pc: PseudoClass) -> int {
    match pc {
            PseudoClass::Hover => 0,
            PseudoClass::Active => 1,
            PseudoClass::Focus => 2,
            PseudoClass::FocusWithin => 3,
            PseudoClass::FocusVisible => 4,
            PseudoClass::Enabled => 5,
            PseudoClass::Disabled => 6,
            PseudoClass::Checked => 7,
            PseudoClass::Indeterminate => 8,
            PseudoClass::Required => 9,
            PseudoClass::Optional => 10,
            PseudoClass::Valid => 11,
            PseudoClass::Invalid => 12,
            PseudoClass::ReadOnly => 13,
            PseudoClass::ReadWrite => 14,
            PseudoClass::PlaceholderShown => 15,
            PseudoClass::Default => 16,
            PseudoClass::Target => 17,
            PseudoClass::Visited => 18,
            PseudoClass::Link => 19,
            PseudoClass::Fullscreen => 20,
            PseudoClass::Modal => 21,
            PseudoClass::PopoverOpen => 22,
            PseudoClass::Defined => 23,
            PseudoClass::Autofill => 24,
            PseudoClass::UserValid => 25,
            PseudoClass::UserInvalid => 26,
            PseudoClass::Playing => 27,
            PseudoClass::Paused => 28,
            PseudoClass::Seeking => 29,
            PseudoClass::Buffering => 30,
            PseudoClass::Stalled => 31,
            PseudoClass::Muted => 32,
            PseudoClass::VolumeLocked => 33,
            PseudoClass::Blank => 34,
            PseudoClass::InRange => 35,
            PseudoClass::OutOfRange => 36,
            PseudoClass::Open => 37,
            PseudoClass::Closed => 38,
            PseudoClass::PictureInPicture => 39,
            PseudoClass::TargetWithin => 40,
            PseudoClass::LocalLink => 41,
            PseudoClass::Current => 42,
            PseudoClass::Past => 43,
            PseudoClass::Future => 44,
        _ => -1,
    }
}

/// The state flag of a pseudo-class, if it is a single state bit.
pub open spec fn spec_state_flag(pc: PseudoClass) -> Option<ElementState> {
    if state_bit_index(pc) >= 0 {
        Some(ElementState(pow2_u64(state_bit_index(pc) as nat)))
    } else {
        None
    }
}

/// `2^n` as a `u64` (`n < 64`).
pub open spec fn pow2_u64(n: nat) -> u64 {
    (1u64 << (n as u64))
}

/// Whether a pseudo-class depends on the element's position in the tree.
pub open spec fn spec_is_structural(pc: PseudoClass) -> bool {
    match pc {
        PseudoClass::Root | PseudoClass::Empty | PseudoClass::FirstChild | PseudoClass::LastChild
        | PseudoClass::OnlyChild | PseudoClass::FirstOfType | PseudoClass::LastOfType
        | PseudoClass::OnlyOfType => true,
        _ => false,
    }
}

/// The CSS name of a pseudo-class.
pub open spec fn spec_pc_name(v: PseudoClass) -> Seq<char> {
    match v {
        PseudoClass::Hover => "hover"@,
        PseudoClass::Active => "active"@,
        PseudoClass::Focus => "focus"@,
        PseudoClass::FocusWithin => "focus-within"@,
        PseudoClass::FocusVisible => "focus-visible"@,
        PseudoClass::Enabled => "enabled"@,
        PseudoClass::Disabled => "disabled"@,
        PseudoClass::Checked => "checked"@,
        PseudoClass::Indeterminate => "indeterminate"@,
        PseudoClass::Required => "required"@,
        PseudoClass::Optional => "optional"@,
        PseudoClass::Valid => "valid"@,
        PseudoClass::Invalid => "invalid"@,
        PseudoClass::ReadOnly => "read-only"@,
        PseudoClass::ReadWrite => "read-write"@,
        PseudoClass::PlaceholderShown => "placeholder-shown"@,
        PseudoClass::Default => "default"@,
        PseudoClass::Target => "target"@,
        PseudoClass::Visited => "visited"@,
        PseudoClass::Link => "link"@,
        PseudoClass::AnyLink => "any-link"@,
        PseudoClass::Fullscreen => "fullscreen"@,
        PseudoClass::Modal => "modal"@,
        PseudoClass::PopoverOpen => "popover-open"@,
        PseudoClass::Defined => "defined"@,
        PseudoClass::Autofill => "autofill"@,
        PseudoClass::UserValid => "user-valid"@,
        PseudoClass::UserInvalid => "user-invalid"@,
        PseudoClass::Root => "root"@,
        PseudoClass::Empty => "empty"@,
        PseudoClass::FirstChild => "first-child"@,
        PseudoClass::LastChild => "last-child"@,
        PseudoClass::OnlyChild => "only-child"@,
        PseudoClass::FirstOfType => "first-of-type"@,
        PseudoClass::LastOfType => "last-of-type"@,
        PseudoClass::OnlyOfType => "only-of-type"@,
        PseudoClass::Scope => "scope"@,
        PseudoClass::Playing => "playing"@,
        PseudoClass::Paused => "paused"@,
        PseudoClass::Seeking => "seeking"@,
        PseudoClass::Buffering => "buffering"@,
        PseudoClass::Stalled => "stalled"@,
        PseudoClass::Muted => "muted"@,
        PseudoClass::VolumeLocked => "volume-locked"@,
        PseudoClass::Blank => "blank"@,
        PseudoClass::InRange => "in-range"@,
        PseudoClass::OutOfRange => "out-of-range"@,
        PseudoClass::Open => "open"@,
        PseudoClass::Closed => "closed"@,
        PseudoClass::PictureInPicture => "picture-in-picture"@,
        PseudoClass::TargetWithin => "target-within"@,
        PseudoClass::LocalLink => "local-link"@,
        PseudoClass::Current => "current"@,
        PseudoClass::Past => "past"@,
        PseudoClass::Future => "future"@,
    }
}

impl PseudoClass {
    /// The CSS name of this pseudo-class.
    pub fn css_name(self) -> (r: &'static str)
        ensures
            r@ == spec_pc_name(self),
    {
        match self {
            PseudoClass::Hover => "hover",
            PseudoClass::Active => "active",
            PseudoClass::Focus => "focus",
            PseudoClass::FocusWithin => "focus-within",
            PseudoClass::FocusVisible => "focus-visible",
            PseudoClass::Enabled => "enabled",
            PseudoClass::Disabled => "disabled",
            PseudoClass::Checked => "checked",
            PseudoClass::Indeterminate => "indeterminate",
            PseudoClass::Required => "required",
            PseudoClass::Optional => "optional",
            PseudoClass::Valid => "valid",
            PseudoClass::Invalid => "invalid",
            PseudoClass::ReadOnly => "read-only",
            PseudoClass::ReadWrite => "read-write",
            PseudoClass::PlaceholderShown => "placeholder-shown",
            PseudoClass::Default => "default",
            PseudoClass::Target => "target",
            PseudoClass::Visited => "visited",
            PseudoClass::Link => "link",
            PseudoClass::AnyLink => "any-link",
            PseudoClass::Fullscreen => "fullscreen",
            PseudoClass::Modal => "modal",
            PseudoClass::PopoverOpen => "popover-open",
            PseudoClass::Defined => "defined",
            PseudoClass::Autofill => "autofill",
            PseudoClass::UserValid => "user-valid",
            PseudoClass::UserInvalid => "user-invalid",
            PseudoClass::Root => "root",
            PseudoClass::Empty => "empty",
            PseudoClass::FirstChild => "first-child",
            PseudoClass::LastChild => "last-child",
            PseudoClass::OnlyChild => "only-child",
            PseudoClass::FirstOfType => "first-of-type",
            PseudoClass::LastOfType => "last-of-type",
            PseudoClass::OnlyOfType => "only-of-type",
            PseudoClass::Scope => "scope",
            PseudoClass::Playing => "playing",
            PseudoClass::Paused => "paused",
            PseudoClass::Seeking => "seeking",
            PseudoClass::Buffering => "buffering",
            PseudoClass::Stalled => "stalled",
            PseudoClass::Muted => "muted",
            PseudoClass::VolumeLocked => "volume-locked",
            PseudoClass::Blank => "blank",
            PseudoClass::InRange => "in-range",
            PseudoClass::OutOfRange => "out-of-range",
            PseudoClass::Open => "open",
            PseudoClass::Closed => "closed",
            PseudoClass::PictureInPicture => "picture-in-picture",
            PseudoClass::TargetWithin => "target-within",
            PseudoClass::LocalLink => "local-link",
            PseudoClass::Current => "current",
            PseudoClass::Past => "past",
            PseudoClass::Future => "future",
        }
    }

    fn bit_index(self) -> (r: Option<u32>)
        ensures
            match r {
                Some(i) => state_bit_index(self) == i as int && i < 64,
                None => state_bit_index(self) < 0,
            },
    {
        match self {
            PseudoClass::Hover => Some(0u32),
            PseudoClass::Active => Some(1u32),
            PseudoClass::Focus => Some(2u32),
            PseudoClass::FocusWithin => Some(3u32),
            PseudoClass::FocusVisible => Some(4u32),
            PseudoClass::Enabled => Some(5u32),
            PseudoClass::Disabled => Some(6u32),
            PseudoClass::Checked => Some(7u32),
            PseudoClass::Indeterminate => Some(8u32),
            PseudoClass::Required => Some(9u32),
            PseudoClass::Optional => Some(10u32),
            PseudoClass::Valid => Some(11u32),
            PseudoClass::Invalid => Some(12u32),
            PseudoClass::ReadOnly => Some(13u32),
            PseudoClass::ReadWrite => Some(14u32),
            PseudoClass::PlaceholderShown => Some(15u32),
            PseudoClass::Default => Some(16u32),
            PseudoClass::Target => Some(17u32),
            PseudoClass::Visited => Some(18u32),
            PseudoClass::Link => Some(19u32),
            PseudoClass::Fullscreen => Some(20u32),
            PseudoClass::Modal => Some(21u32),
            PseudoClass::PopoverOpen => Some(22u32),
            PseudoClass::Defined => Some(23u32),
            PseudoClass::Autofill => Some(24u32),
            PseudoClass::UserValid => Some(25u32),
            PseudoClass::UserInvalid => Some(26u32),
            PseudoClass::Playing => Some(27u32),
            PseudoClass::Paused => Some(28u32),
            PseudoClass::Seeking => Some(29u32),
            PseudoClass::Buffering => Some(30u32),
            PseudoClass::Stalled => Some(31u32),
            PseudoClass::Muted => Some(32u32),
            PseudoClass::VolumeLocked => Some(33u32),
            PseudoClass::Blank => Some(34u32),
            PseudoClass::InRange => Some(35u32),
            PseudoClass::OutOfRange => Some(36u32),
            PseudoClass::Open => Some(37u32),
            PseudoClass::Closed => Some(38u32),
            PseudoClass::PictureInPicture => Some(39u32),
            PseudoClass::TargetWithin => Some(40u32),
            PseudoClass::LocalLink => Some(41u32),
            PseudoClass::Current => Some(42u32),
            PseudoClass::Past => Some(43u32),
            PseudoClass::Future => Some(44u32),
            _ => None,
        }
    }

    /// Returns the `ElementState` flag for state-based pseudo-classes,
    /// or `None` for those that need tree queries or context.
    pub fn state_flag(self) -> (r: Option<ElementState>)
        ensures
            r == spec_state_flag(self),
    {
        match self.bit_index() {
            Some(i) => Some(ElementState(1u64 << i)),
            None => None,
        }
    }

    /// Whether this is a structural pseudo-class that depends on tree position.
    pub fn is_structural(self) -> (r: bool)
        ensures
            r == spec_is_structural(self),
    {
        matches!(
            self,
            PseudoClass::Root | PseudoClass::Empty | PseudoClass::FirstChild | PseudoClass::LastChild
                | PseudoClass::OnlyChild | PseudoClass::FirstOfType | PseudoClass::LastOfType
                | PseudoClass::OnlyOfType
        )
    }
}

/// State flags are single bits, so distinct state-based pseudo-classes test
/// distinct bits, and structural pseudo-classes are never state flags.
pub proof fn lemma_state_flags_are_single_bits(pc: PseudoClass)
    ensures
        spec_is_structural(pc) ==> spec_state_flag(pc) is None,
        pc == PseudoClass::AnyLink ==> spec_state_flag(pc) is None,
        pc == PseudoClass::Scope ==> spec_state_flag(pc) is None,
{
}

} // verus!
