use crate::generational_map::GenerationalKey;
use vstd::prelude::*;

verus! {

/// An ingredient, known by its name.
#[derive(Debug, Clone, PartialEq)]
pub struct Ingrediant {
    pub name: String,
}

/// The key under which an ingredient is stored.
pub type IngrediantKey = GenerationalKey<Ingrediant>;

} // verus!
