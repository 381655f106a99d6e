use vstd::prelude::*;

verus! {

/// Bit pattern of the binary64 value `1.0`, the raw code for a pass.
pub const PASS_CODE: u64 = 0x3FF0_0000_0000_0000;

/// Bit pattern of the binary64 value `0.5`, the raw code for a half mark.
pub const HALF_CODE: u64 = 0x3FE0_0000_0000_0000;

/// Number of classes a sample can fall in.
pub const NUM_LABELS: usize = 3;

/// The class of a sample.
#[derive(Clone, Copy, Debug, PartialEq, Eq, Structural, Hash, PartialOrd, Ord)]
pub enum Label {
    Fail,
    Half,
    Pass,
}

/// The class that a raw target code stands for.
///
/// Only the exact values `1.0` and `0.5` are recognised; every other value,
/// however close, is a fail. Two binary64 values compare equal to `1.0`
/// (or `0.5`) exactly when their bit patterns are the one above, so the rule
/// is a comparison of bit patterns.
pub open spec fn label_of_code_spec(code: u64) -> Label {
    if code == PASS_CODE {
        Label::Pass
    } else if code == HALF_CODE {
        Label::Half
    } else {
        Label::Fail
    }
}

/// Maps a raw target code (the bit pattern of the value read) to its class.
pub fn label_of_code(code: u64) -> (r: Label)
    ensures
        r == label_of_code_spec(code),
{
    if code == PASS_CODE {
        Label::Pass
    } else if code == HALF_CODE {
        Label::Half
    } else {
        Label::Fail
    }
}

impl Label {
    /// Position of the class in the fixed order fail, half, pass.
    pub open spec fn index_spec(self) -> nat {
        match self {
            Label::Fail => 0,
            Label::Half => 1,
            Label::Pass => 2,
        }
    }

    /// The class at a position of the fixed order, if there is one.
    pub open spec fn from_index_spec(i: int) -> Option<Label> {
        if i == 0 {
            Some(Label::Fail)
        } else if i == 1 {
            Some(Label::Half)
        } else if i == 2 {
            Some(Label::Pass)
        } else {
            None
        }
    }

    /// The class's printed name.
    pub open spec fn name_spec(self) -> Seq<char> {
        match self {
            Label::Fail => seq!['f', 'a', 'i', 'l'],
            Label::Half => seq!['h', 'a', 'l', 'f'],
            Label::Pass => seq!['p', 'a', 's', 's'],
        }
    }

    pub fn index(&self) -> (r: usize)
        ensures
            r == self.index_spec(),
            r < NUM_LABELS,
    {
        match self {
            Label::Fail => 0,
            Label::Half => 1,
            Label::Pass => 2,
        }
    }

    pub fn from_index(i: usize) -> (r: Option<Label>)
        ensures
            r == Self::from_index_spec(i as int),
            r is Some <==> i < NUM_LABELS,
            r matches Some(l) ==> l.index_spec() == i,
    {
        if i == 0 {
            Some(Label::Fail)
        } else if i == 1 {
            Some(Label::Half)
        } else if i == 2 {
            Some(Label::Pass)
        } else {
            None
        }
    }

    pub fn name(&self) -> (r: &'static str)
        ensures
            r@ == self.name_spec(),
    {
        proof {
            reveal_strlit("fail");
            reveal_strlit("half");
            reveal_strlit("pass");
        }
        match self {
            Label::Fail => "fail",
            Label::Half => "half",
            Label::Pass => "pass",
        }
    }
}

} // verus!
