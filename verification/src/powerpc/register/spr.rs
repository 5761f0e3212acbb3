use vstd::prelude::*;

verus! {

/// A special-purpose register.
#[derive(Clone, Copy, Debug, PartialEq, Eq, PartialOrd, Ord, Hash, Structural)]
pub enum Spr {
    IntegerException,
    Link,
    Count,
    Gqr1,
    Gqr2,
    Gqr3,
    Gqr4,
    Gqr5,
    Gqr6,
    Gqr7,
}

impl Spr {
    /// The register that an SPR number names, if it is one of the known ones.
    pub open spec fn of_number(spr: u32) -> Option<Spr> {
        if spr == 1 {
            Some(Spr::IntegerException)
        } else if spr == 8 {
            Some(Spr::Link)
        } else if spr == 9 {
            Some(Spr::Count)
        } else if spr == 913 {
            Some(Spr::Gqr1)
        } else if spr == 914 {
            Some(Spr::Gqr2)
        } else if spr == 915 {
            Some(Spr::Gqr3)
        } else if spr == 916 {
            Some(Spr::Gqr4)
        } else if spr == 917 {
            Some(Spr::Gqr5)
        } else if spr == 918 {
            Some(Spr::Gqr6)
        } else if spr == 919 {
            Some(Spr::Gqr7)
        } else {
            None
        }
    }

    /// The SPR number of the register.
    pub open spec fn number(self) -> u32 {
        match self {
            Spr::IntegerException => 1,
            Spr::Link => 8,
            Spr::Count => 9,
            Spr::Gqr1 => 913,
            Spr::Gqr2 => 914,
            Spr::Gqr3 => 915,
            Spr::Gqr4 => 916,
            Spr::Gqr5 => 917,
            Spr::Gqr6 => 918,
            Spr::Gqr7 => 919,
        }
    }

    /// The position of the register in the declaration above.
    pub open spec fn ordinal(self) -> u32 {
        match self {
            Spr::IntegerException => 0,
            Spr::Link => 1,
            Spr::Count => 2,
            Spr::Gqr1 => 3,
            Spr::Gqr2 => 4,
            Spr::Gqr3 => 5,
            Spr::Gqr4 => 6,
            Spr::Gqr5 => 7,
            Spr::Gqr6 => 8,
            Spr::Gqr7 => 9,
        }
    }

    /// The register at a position; the inverse of [`Spr::ordinal`].
    pub open spec fn of_ordinal(ordinal: u32) -> Spr {
        if ordinal == 0 {
            Spr::IntegerException
        } else if ordinal == 1 {
            Spr::Link
        } else if ordinal == 2 {
            Spr::Count
        } else if ordinal == 3 {
            Spr::Gqr1
        } else if ordinal == 4 {
            Spr::Gqr2
        } else if ordinal == 5 {
            Spr::Gqr3
        } else if ordinal == 6 {
            Spr::Gqr4
        } else if ordinal == 7 {
            Spr::Gqr5
        } else if ordinal == 8 {
            Spr::Gqr6
        } else {
            Spr::Gqr7
        }
    }

    pub fn new(spr: u32) -> (r: Option<Spr>)
        ensures
            r == Spr::of_number(spr),
            r is Some ==> r->0.number() == spr,
    {
        match spr {
            0b00000_00001 => Some(Spr::IntegerException),
            0b00000_01000 => Some(Spr::Link),
            0b00000_01001 => Some(Spr::Count),
            0b11100_10001 => Some(Spr::Gqr1),
            0b11100_10010 => Some(Spr::Gqr2),
            0b11100_10011 => Some(Spr::Gqr3),
            0b11100_10100 => Some(Spr::Gqr4),
            0b11100_10101 => Some(Spr::Gqr5),
            0b11100_10110 => Some(Spr::Gqr6),
            0b11100_10111 => Some(Spr::Gqr7),
            _ => None,
        }
    }

    /// Computes [`Spr::ordinal`].
    pub fn to_ordinal(self) -> (r: u32)
        ensures
            r == self.ordinal(),
            r < 10,
            Spr::of_ordinal(r) == self,
    {
        match self {
            Spr::IntegerException => 0,
            Spr::Link => 1,
            Spr::Count => 2,
            Spr::Gqr1 => 3,
            Spr::Gqr2 => 4,
            Spr::Gqr3 => 5,
            Spr::Gqr4 => 6,
            Spr::Gqr5 => 7,
            Spr::Gqr6 => 8,
            Spr::Gqr7 => 9,
        }
    }

    /// The register at a position in the declaration above.
    pub fn from_ordinal(ordinal: u32) -> (r: Option<Spr>)
        ensures
            r is Some <==> ordinal < 10,
            r is Some ==> r->0 == Spr::of_ordinal(ordinal) && r->0.ordinal() == ordinal,
    {
        match ordinal {
            0 => Some(Spr::IntegerException),
            1 => Some(Spr::Link),
            2 => Some(Spr::Count),
            3 => Some(Spr::Gqr1),
            4 => Some(Spr::Gqr2),
            5 => Some(Spr::Gqr3),
            6 => Some(Spr::Gqr4),
            7 => Some(Spr::Gqr5),
            8 => Some(Spr::Gqr6),
            9 => Some(Spr::Gqr7),
            _ => None,
        }
    }
}

} // verus!
