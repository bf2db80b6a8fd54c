//! Optimization levels handed to the LLVM static compiler.
use vstd::prelude::*;

verus! {

/// The optimization level, named as in `clang`.
#[derive(Debug, Clone, Copy, PartialEq, Eq, Hash, Structural)]
pub enum Optimization {
    O0,
    O1,
    O2,
    O3,
    Os,
    Oz,
}

/// The displayed form of an optimization level (`O0`, `O1`, ...).
pub open spec fn optimization_name(o: Optimization) -> Seq<char> {
    match o {
        Optimization::O0 => "O0"@,
        Optimization::O1 => "O1"@,
        Optimization::O2 => "O2"@,
        Optimization::O3 => "O3"@,
        Optimization::Os => "Os"@,
        Optimization::Oz => "Oz"@,
    }
}

impl Optimization {
    /// The displayed form of the level.
    pub fn to_string(&self) -> (r: String)
        ensures
            r@ == optimization_name(*self),
    {
        match self {
            Optimization::O0 => String::from_str("O0"),
            Optimization::O1 => String::from_str("O1"),
            Optimization::O2 => String::from_str("O2"),
            Optimization::O3 => String::from_str("O3"),
            Optimization::Os => String::from_str("Os"),
            Optimization::Oz => String::from_str("Oz"),
        }
    }
}

} // verus!
