use vstd::prelude::*;
use crate::axis::{Axis, DataHV, Place};

verus! {

/// How a character is built: a single component, components side by side
/// along an axis, or one component surrounding another.
#[derive(Clone, Copy, PartialEq, Eq, Debug)]
pub enum Type {
    Single,
    Scale(Axis),
    Surround(DataHV<Place>),
}

/// The surround kinds that have an ideographic description character.
pub open spec fn surround_has_symbol(p: DataHV<Place>) -> bool {
    ||| p.h == Place::Start && p.v == Place::Start
    ||| p.h == Place::End && p.v == Place::Start
    ||| p.h == Place::Start && p.v == Place::End
    ||| p.h == Place::Mind && p.v == Place::Start
    ||| p.h == Place::Mind && p.v == Place::End
    ||| p.h == Place::Start && p.v == Place::Mind
    ||| p.h == Place::Mind && p.v == Place::Mind
}

/// The kinds that have a description character.
pub open spec fn has_symbol(t: Type) -> bool {
    match t {
        Type::Surround(p) => surround_has_symbol(p),
        _ => true,
    }
}

/// The ideographic description character of a kind.
pub open spec fn spec_symbol(t: Type) -> char {
    match t {
        Type::Single => '□',
        Type::Scale(Axis::Horizontal) => '⿰',
        Type::Scale(Axis::Vertical) => '⿱',
        Type::Surround(p) => if p.h == Place::Start && p.v == Place::Start {
            '⿸'
        } else if p.h == Place::End && p.v == Place::Start {
            '⿹'
        } else if p.h == Place::Start && p.v == Place::End {
            '⿺'
        } else if p.h == Place::Mind && p.v == Place::Start {
            '⿵'
        } else if p.h == Place::Mind && p.v == Place::End {
            '⿶'
        } else if p.h == Place::Start && p.v == Place::Mind {
            '⿷'
        } else {
            '⿴'
        },
    }
}

/// The kind a one-character description names; anything else is a single component.
pub open spec fn spec_from_char(c: char) -> Type {
    if c == '⿰' || c == '⿲' {
        Type::Scale(Axis::Horizontal)
    } else if c == '⿱' || c == '⿳' {
        Type::Scale(Axis::Vertical)
    } else if c == '⿸' {
        Type::Surround(DataHV { h: Place::Start, v: Place::Start })
    } else if c == '⿹' {
        Type::Surround(DataHV { h: Place::End, v: Place::Start })
    } else if c == '⿺' {
        Type::Surround(DataHV { h: Place::Start, v: Place::End })
    } else if c == '⿵' {
        Type::Surround(DataHV { h: Place::Mind, v: Place::Start })
    } else if c == '⿶' {
        Type::Surround(DataHV { h: Place::Mind, v: Place::End })
    } else if c == '⿷' {
        Type::Surround(DataHV { h: Place::Start, v: Place::Mind })
    } else if c == '⿴' {
        Type::Surround(DataHV { h: Place::Mind, v: Place::Mind })
    } else {
        Type::Single
    }
}

/// The kind that the text `s` names.
pub open spec fn spec_from_symbol(s: Seq<char>) -> Type {
    if s.len() == 1 {
        spec_from_char(s[0])
    } else {
        Type::Single
    }
}

impl Type {
    /// Whether this kind has a description character.
    pub fn has_symbol(&self) -> (r: bool)
        ensures
            r == has_symbol(*self),
    {
        match self {
            Type::Surround(p) => {
                (p.h == Place::Start && p.v == Place::Start) || (p.h == Place::End && p.v == Place::Start) || (p.h
                    == Place::Start && p.v == Place::End) || (p.h == Place::Mind && p.v == Place::Start) || (p.h
                    == Place::Mind && p.v == Place::End) || (p.h == Place::Start && p.v == Place::Mind) || (p.h
                    == Place::Mind && p.v == Place::Mind)
            },
            _ => true,
        }
    }

    /// The ideographic description character of this kind.
    pub fn symbol(&self) -> (r: char)
        requires
            has_symbol(*self),
        ensures
            r == spec_symbol(*self),
    {
        match self {
            Type::Single => '□',
            Type::Scale(Axis::Horizontal) => '⿰',
            Type::Scale(Axis::Vertical) => '⿱',
            Type::Surround(p) => {
                if p.h == Place::Start && p.v == Place::Start {
                    '⿸'
                } else if p.h == Place::End && p.v == Place::Start {
                    '⿹'
                } else if p.h == Place::Start && p.v == Place::End {
                    '⿺'
                } else if p.h == Place::Mind && p.v == Place::Start {
                    '⿵'
                } else if p.h == Place::Mind && p.v == Place::End {
                    '⿶'
                } else if p.h == Place::Start && p.v == Place::Mind {
                    '⿷'
                } else {
                    '⿴'
                }
            },
        }
    }

    /// The kind that `symbol` names: a description character, or a single
    /// component for any other text.
    pub fn from_symbol(symbol: &str) -> (r: Self)
        ensures
            r == spec_from_symbol(symbol@),
    {
        if symbol.unicode_len() != 1 {
            return Type::Single;
        }
        let c = symbol.get_char(0);
        if c == '⿰' || c == '⿲' {
            Type::Scale(Axis::Horizontal)
        } else if c == '⿱' || c == '⿳' {
            Type::Scale(Axis::Vertical)
        } else if c == '⿸' {
            Type::Surround(DataHV { h: Place::Start, v: Place::Start })
        } else if c == '⿹' {
            Type::Surround(DataHV { h: Place::End, v: Place::Start })
        } else if c == '⿺' {
            Type::Surround(DataHV { h: Place::Start, v: Place::End })
        } else if c == '⿵' {
            Type::Surround(DataHV { h: Place::Mind, v: Place::Start })
        } else if c == '⿶' {
            Type::Surround(DataHV { h: Place::Mind, v: Place::End })
        } else if c == '⿷' {
            Type::Surround(DataHV { h: Place::Start, v: Place::Mind })
        } else if c == '⿴' {
            Type::Surround(DataHV { h: Place::Mind, v: Place::Mind })
        } else {
            Type::Single
        }
    }
}

/// Reading back the description character of a kind gives the kind.
pub proof fn lemma_symbol_round_trip(t: Type)
    requires
        has_symbol(t),
    ensures
        spec_from_symbol(seq![spec_symbol(t)]) == t,
{
}

} // verus!
