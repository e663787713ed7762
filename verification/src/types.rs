//! Power supply output state.

use vstd::prelude::*;

use crate::text::chars_eq_ignore_ascii_case;
use crate::text::chars_of;
use crate::text::eq_ignore_ascii_case;
use crate::text::lemma_eq_ignore_ascii_case_same;

verus! {

/// Power output state: On or Off.
#[derive(Debug, Clone, Copy, PartialEq, Eq, Structural)]
pub enum OnOffValue {
    /// Output enabled
    On,
    /// Output disabled
    Off,
}

/// The text of a state: `on` or `off`.
pub open spec fn spec_on_off_text(v: OnOffValue) -> Seq<char> {
    match v {
        OnOffValue::On => "on"@,
        OnOffValue::Off => "off"@,
    }
}

/// The state that a text names, ignoring ASCII case: `on` or `off`, nothing else.
pub open spec fn spec_from_str_lossy(s: Seq<char>) -> Option<OnOffValue> {
    if eq_ignore_ascii_case(s, "on"@) {
        Some(OnOffValue::On)
    } else if eq_ignore_ascii_case(s, "off"@) {
        Some(OnOffValue::Off)
    } else {
        None
    }
}

impl OnOffValue {
    /// Parse from a string ("on"/"off"), case-insensitive.
    pub fn from_str_lossy(s: &str) -> (res: Option<Self>)
        ensures
            res == spec_from_str_lossy(s@),
    {
        let v = chars_of(s);
        let on = chars_of("on");
        let off = chars_of("off");
        if chars_eq_ignore_ascii_case(&v, &on) {
            Some(OnOffValue::On)
        } else if chars_eq_ignore_ascii_case(&v, &off) {
            Some(OnOffValue::Off)
        } else {
            None
        }
    }

    /// The text of the state, as it is displayed: `on` or `off`.
    pub fn as_str(&self) -> (s: &'static str)
        ensures
            s@ == spec_on_off_text(*self),
    {
        match self {
            OnOffValue::On => "on",
            OnOffValue::Off => "off",
        }
    }

    /// The text of the state as an owned string: `on` or `off`.
    pub fn to_string(&self) -> (s: String)
        ensures
            s@ == spec_on_off_text(*self),
    {
        String::from_str(self.as_str())
    }

    /// The state that an output-enable flag stands for.
    pub fn from_enabled(enabled: bool) -> (v: Self)
        ensures
            v == (if enabled {
                OnOffValue::On
            } else {
                OnOffValue::Off
            }),
    {
        if enabled {
            OnOffValue::On
        } else {
            OnOffValue::Off
        }
    }
}

/// Law: the displayed text of a state parses back to that state.
pub proof fn law_on_off_text_round_trip(v: OnOffValue)
    ensures
        spec_from_str_lossy(spec_on_off_text(v)) == Some(v),
{
    reveal_strlit("on");
    reveal_strlit("off");
    assert(eq_ignore_ascii_case("on"@, "on"@));
    assert(eq_ignore_ascii_case("off"@, "off"@));
    assert(!eq_ignore_ascii_case("off"@, "on"@));
}

/// Law: parsing ignores ASCII case, so two texts that differ only in ASCII case
/// give the same state.
pub proof fn law_from_str_lossy_ignores_case(s: Seq<char>, t: Seq<char>)
    requires
        eq_ignore_ascii_case(s, t),
    ensures
        spec_from_str_lossy(s) == spec_from_str_lossy(t),
{
    lemma_eq_ignore_ascii_case_same(s, t, "on"@);
    lemma_eq_ignore_ascii_case_same(s, t, "off"@);
}

} // verus!
