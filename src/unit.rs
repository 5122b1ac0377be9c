use vstd::prelude::*;

verus! {

/// Units for ingredients measured by weight.
#[derive(PartialEq, Eq, Structural, Copy, Clone, Debug, PartialOrd, Ord, Hash)]
pub enum SolidUnit {
    Grams,
    KiloGrams,
    Pinch,
}

/// Units for ingredients measured by volume.
#[derive(PartialEq, Eq, Structural, Copy, Clone, Debug, PartialOrd, Ord, Hash)]
pub enum LiquidUnit {
    MilliLiters,
    Liters,
}

/// Units that measure neither weight nor volume exactly.
#[derive(PartialEq, Eq, Structural, Copy, Clone, Debug, PartialOrd, Ord, Hash)]
pub enum AmbiguosUnit {
    TeaSpoon,
    TableSpoon,
    Count,
}

/// The unit of an ingredient quantity.
#[derive(PartialEq, Eq, Structural, Copy, Clone, Debug, PartialOrd, Ord, Hash)]
pub enum Unit {
    Solid(SolidUnit),
    Liquid(LiquidUnit),
    Ambigous(AmbiguosUnit),
}

impl Default for SolidUnit {
    fn default() -> (r: Self)
        ensures
            r == SolidUnit::Grams,
    {
        SolidUnit::Grams
    }
}

impl Default for LiquidUnit {
    fn default() -> (r: Self)
        ensures
            r == LiquidUnit::MilliLiters,
    {
        LiquidUnit::MilliLiters
    }
}

impl Default for AmbiguosUnit {
    fn default() -> (r: Self)
        ensures
            r == AmbiguosUnit::Count,
    {
        AmbiguosUnit::Count
    }
}

impl Default for Unit {
    fn default() -> (r: Self)
        ensures
            r == Unit::Solid(SolidUnit::Grams),
    {
        Unit::Solid(SolidUnit::Grams)
    }
}

/// The short name under which a unit is shown.
pub open spec fn abbreviation_of(unit: Unit) -> Seq<char> {
    match unit {
        Unit::Solid(SolidUnit::Grams) => seq!['g'],
        Unit::Solid(SolidUnit::KiloGrams) => seq!['k', 'g'],
        Unit::Solid(SolidUnit::Pinch) => seq!['p', 'i', 'n', 'c', 'h'],
        Unit::Liquid(LiquidUnit::MilliLiters) => seq!['m', 'l'],
        Unit::Liquid(LiquidUnit::Liters) => seq!['L'],
        Unit::Ambigous(AmbiguosUnit::TeaSpoon) => seq!['t', 's', 'p'],
        Unit::Ambigous(AmbiguosUnit::TableSpoon) => seq!['t', 'b', 's', 'p'],
        Unit::Ambigous(AmbiguosUnit::Count) => seq!['x'],
    }
}

impl Unit {
    /// Whether the unit is not a unit of weight.
    pub fn is_liquid(self) -> (r: bool)
        ensures
            r == !(self is Solid),
    {
        match self {
            Unit::Solid(_) => false,
            _ => true,
        }
    }

    /// The short name under which the unit is shown.
    pub fn abreviation(self) -> (r: &'static str)
        ensures
            r@ == abbreviation_of(self),
    {
        match self {
            Unit::Solid(SolidUnit::Grams) => {
                proof {
                    reveal_strlit("g");
                }
                "g"
            },
            Unit::Solid(SolidUnit::KiloGrams) => {
                proof {
                    reveal_strlit("kg");
                }
                "kg"
            },
            Unit::Solid(SolidUnit::Pinch) => {
                proof {
                    reveal_strlit("pinch");
                }
                "pinch"
            },
            Unit::Liquid(LiquidUnit::MilliLiters) => {
                proof {
                    reveal_strlit("ml");
                }
                "ml"
            },
            Unit::Liquid(LiquidUnit::Liters) => {
                proof {
                    reveal_strlit("L");
                }
                "L"
            },
            Unit::Ambigous(AmbiguosUnit::TeaSpoon) => {
                proof {
                    reveal_strlit("tsp");
                }
                "tsp"
            },
            Unit::Ambigous(AmbiguosUnit::TableSpoon) => {
                proof {
                    reveal_strlit("tbsp");
                }
                "tbsp"
            },
            Unit::Ambigous(AmbiguosUnit::Count) => {
                proof {
                    reveal_strlit("x");
                }
                "x"
            },
        }
    }
}

/// Every unit, solid ones first, then liquid, then ambiguous.
pub fn units() -> (r: Vec<Unit>)
    ensures
        r@ == seq![
            Unit::Solid(SolidUnit::Grams),
            Unit::Solid(SolidUnit::KiloGrams),
            Unit::Solid(SolidUnit::Pinch),
            Unit::Liquid(LiquidUnit::MilliLiters),
            Unit::Liquid(LiquidUnit::Liters),
            Unit::Ambigous(AmbiguosUnit::TeaSpoon),
            Unit::Ambigous(AmbiguosUnit::TableSpoon),
            Unit::Ambigous(AmbiguosUnit::Count),
        ],
{
    let r = vec![
        Unit::Solid(SolidUnit::Grams),
        Unit::Solid(SolidUnit::KiloGrams),
        Unit::Solid(SolidUnit::Pinch),
        Unit::Liquid(LiquidUnit::MilliLiters),
        Unit::Liquid(LiquidUnit::Liters),
        Unit::Ambigous(AmbiguosUnit::TeaSpoon),
        Unit::Ambigous(AmbiguosUnit::TableSpoon),
        Unit::Ambigous(AmbiguosUnit::Count),
    ];
    proof {
        assert(r@ =~= seq![
            Unit::Solid(SolidUnit::Grams),
            Unit::Solid(SolidUnit::KiloGrams),
            Unit::Solid(SolidUnit::Pinch),
            Unit::Liquid(LiquidUnit::MilliLiters),
            Unit::Liquid(LiquidUnit::Liters),
            Unit::Ambigous(AmbiguosUnit::TeaSpoon),
            Unit::Ambigous(AmbiguosUnit::TableSpoon),
            Unit::Ambigous(AmbiguosUnit::Count),
        ]);
    }
    r
}

} // verus!
