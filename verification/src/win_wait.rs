//! The waits a hand can be won on.

use vstd::prelude::*;
use vstd::string::StringExecFns;

verus! {

/// How the winning tile completed its group.
#[derive(Debug, Copy, Clone, PartialEq, Eq, Structural, Hash, PartialOrd, Ord)]
pub enum WinWait {
    /// A sequence open at both ends.
    Ryanmen,
    /// The middle tile of a sequence.
    Kanchan,
    /// The inner end of a sequence that starts or stops at a terminal.
    Penchan,
    /// The second tile of the pair.
    Tanki,
    /// The third tile of a triplet, waited on with two pairs.
    Shanpon,
}

impl WinWait {
    /// Position of the wait in the wait order.
    pub open spec fn index(self) -> int {
        match self {
            WinWait::Ryanmen => 0,
            WinWait::Kanchan => 1,
            WinWait::Penchan => 2,
            WinWait::Tanki => 3,
            WinWait::Shanpon => 4,
        }
    }

    /// The three letters that a wait is written with.
    pub open spec fn text(self) -> Seq<char> {
        match self {
            WinWait::Ryanmen => "RYN"@,
            WinWait::Kanchan => "KAN"@,
            WinWait::Penchan => "PEN"@,
            WinWait::Tanki => "TAN"@,
            WinWait::Shanpon => "SHA"@,
        }
    }

    /// The three letters that a wait is written with.
    pub fn to_string(self) -> (text: String)
        ensures
            text@ == self.text(),
    {
        String::from_str(
            match self {
                Self::Ryanmen => "RYN",
                Self::Kanchan => "KAN",
                Self::Penchan => "PEN",
                Self::Tanki => "TAN",
                Self::Shanpon => "SHA",
            },
        )
    }

    /// Position of the wait in the wait order.
    pub fn rank(self) -> (r: u8)
        ensures
            r == self.index(),
    {
        match self {
            WinWait::Ryanmen => 0,
            WinWait::Kanchan => 1,
            WinWait::Penchan => 2,
            WinWait::Tanki => 3,
            WinWait::Shanpon => 4,
        }
    }
}

} // verus!
