//! Meal-planning core: a generational slot map that hands out stable,
//! reusable-slot keys, the units of ingredient quantities, and ingredients.

pub mod generational_map;
pub mod ingrediant;
pub mod map_laws;
pub mod unit;

pub use generational_map::{GenerationalKey, GenerationalMap};
pub use ingrediant::{Ingrediant, IngrediantKey};
pub use unit::{AmbiguosUnit, LiquidUnit, SolidUnit, Unit};
