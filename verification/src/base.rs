use vstd::prelude::*;

verus! {

/// One call of an aligned DNA column: the four canonical bases, the ten
/// IUPAC ambiguity codes (each standing for two or three canonical
/// candidates), the fully unknown call N, an alignment gap, and an
/// absence sentinel.
#[derive(Clone, Copy, PartialEq, Eq, Structural, Debug, Hash)]
pub enum Base {
    A,
    C,
    G,
    T,
    W,
    S,
    M,
    K,
    R,
    Y,
    B,
    D,
    H,
    V,
    N,
    Gap,
    NoneBase,
}

/// A call that names exactly one base.
pub open spec fn is_canonical(b: Base) -> bool {
    b is A || b is C || b is G || b is T
}

/// A call that takes part in a pairwise comparison at all: everything
/// but a gap, an N and the absence sentinel.
pub open spec fn is_valid_call(b: Base) -> bool {
    !(b is Gap || b is N || b is NoneBase)
}

/// A comparable call that is not canonical: one of the ten ambiguity codes.
pub open spec fn is_ambiguity(b: Base) -> bool {
    is_valid_call(b) && !is_canonical(b)
}

/// Index of a canonical base in the frequency tables: A, C, G, T in order.
/// Non-canonical calls are sent past the table.
pub open spec fn canon_index(b: Base) -> int {
    match b {
        Base::A => 0,
        Base::C => 1,
        Base::G => 2,
        Base::T => 3,
        _ => 4,
    }
}

/// Index of an ambiguity code in the replacement-set table: W..V in order.
/// Other calls are sent past the table.
pub open spec fn amb_index(b: Base) -> int {
    match b {
        Base::W => 0,
        Base::S => 1,
        Base::M => 2,
        Base::K => 3,
        Base::R => 4,
        Base::Y => 5,
        Base::B => 6,
        Base::D => 7,
        Base::H => 8,
        Base::V => 9,
        _ => 10,
    }
}

/// The fixed replacement sets: which canonical base (by `canon_index`)
/// each ambiguity code (by `amb_index`) may stand for.
pub open spec fn in_rep_set(code: int, b: int) -> bool {
    ||| (code == 0 && (b == 0 || b == 3))  // W: A, T
    ||| (code == 1 && (b == 2 || b == 1))  // S: G, C
    ||| (code == 2 && (b == 0 || b == 1))  // M: A, C
    ||| (code == 3 && (b == 2 || b == 3))  // K: G, T
    ||| (code == 4 && (b == 0 || b == 2))  // R: A, G
    ||| (code == 5 && (b == 1 || b == 3))  // Y: C, T
    ||| (code == 6 && (b == 1 || b == 2 || b == 3))  // B: C, G, T
    ||| (code == 7 && (b == 0 || b == 2 || b == 3))  // D: A, G, T
    ||| (code == 8 && (b == 0 || b == 1 || b == 3))  // H: A, C, T
    ||| (code == 9 && (b == 0 || b == 1 || b == 2))  // V: A, C, G
}

/// A substitution between two canonical bases that stays within the
/// purines or within the pyrimidines.
pub open spec fn is_transition(a: Base, b: Base) -> bool {
    ||| (a is A && b is G)
    ||| (a is G && b is A)
    ||| (a is C && b is T)
    ||| (a is T && b is C)
}

pub fn base_is_canonical(b: Base) -> (r: bool)
    ensures
        r == is_canonical(b),
{
    matches!(b, Base::A | Base::C | Base::G | Base::T)
}

pub fn base_is_valid_call(b: Base) -> (r: bool)
    ensures
        r == is_valid_call(b),
{
    !matches!(b, Base::Gap | Base::N | Base::NoneBase)
}

pub fn base_canon_index(b: Base) -> (r: usize)
    ensures
        r == canon_index(b),
{
    match b {
        Base::A => 0,
        Base::C => 1,
        Base::G => 2,
        Base::T => 3,
        _ => 4,
    }
}

pub fn base_amb_index(b: Base) -> (r: usize)
    ensures
        r == amb_index(b),
{
    match b {
        Base::W => 0,
        Base::S => 1,
        Base::M => 2,
        Base::K => 3,
        Base::R => 4,
        Base::Y => 5,
        Base::B => 6,
        Base::D => 7,
        Base::H => 8,
        Base::V => 9,
        _ => 10,
    }
}

pub fn rep_set_contains(code: usize, b: usize) -> (r: bool)
    ensures
        r == in_rep_set(code as int, b as int),
{
    match code {
        0 => b == 0 || b == 3,
        1 => b == 2 || b == 1,
        2 => b == 0 || b == 1,
        3 => b == 2 || b == 3,
        4 => b == 0 || b == 2,
        5 => b == 1 || b == 3,
        6 => b == 1 || b == 2 || b == 3,
        7 => b == 0 || b == 2 || b == 3,
        8 => b == 0 || b == 1 || b == 3,
        9 => b == 0 || b == 1 || b == 2,
        _ => false,
    }
}

pub fn base_is_transition(a: Base, b: Base) -> (r: bool)
    ensures
        r == is_transition(a, b),
{
    match (a, b) {
        (Base::A, Base::G) => true,
        (Base::G, Base::A) => true,
        (Base::C, Base::T) => true,
        (Base::T, Base::C) => true,
        _ => false,
    }
}

/// The call a character of a FASTA sequence line denotes; anything
/// outside the recognised upper-case alphabet reads as a gap.
pub open spec fn base_of_char(c: char) -> Base {
    match c {
        'A' => Base::A,
        'C' => Base::C,
        'G' => Base::G,
        'T' => Base::T,
        'W' => Base::W,
        'S' => Base::S,
        'M' => Base::M,
        'K' => Base::K,
        'R' => Base::R,
        'Y' => Base::Y,
        'B' => Base::B,
        'D' => Base::D,
        'H' => Base::H,
        'V' => Base::V,
        'N' => Base::N,
        _ => Base::Gap,
    }
}

impl From<char> for Base {
    fn from(value: char) -> (r: Base)
        ensures
            r == base_of_char(value),
    {
        match value {
            'A' => Base::A,
            'C' => Base::C,
            'G' => Base::G,
            'T' => Base::T,
            'W' => Base::W,
            'S' => Base::S,
            'M' => Base::M,
            'K' => Base::K,
            'R' => Base::R,
            'Y' => Base::Y,
            'B' => Base::B,
            'D' => Base::D,
            'H' => Base::H,
            'V' => Base::V,
            'N' => Base::N,
            _ => Base::Gap,
        }
    }
}

impl vstd::std_specs::convert::FromSpecImpl<char> for Base {
    open spec fn obeys_from_spec() -> bool {
        true
    }

    open spec fn from_spec(c: char) -> Base {
        base_of_char(c)
    }
}

} // verus!
