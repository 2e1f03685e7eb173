use vstd::prelude::*;

verus! {

/// Index of a material in the state's material catalog.
pub type ProductMaterialId = usize;

/// Index of a product in the state's product catalog.
pub type ProductId = usize;

/// Index of a badge in the state's badge catalog.
pub type BadgeId = usize;

/// Index of a perk in the state's perk catalog.
pub type PerkId = usize;

/// Index of an automation in the state's automation catalog.
pub type AutomationId = usize;

/// A number of units of a material or a product.
pub type Count = u64;

/// An amount of money, in thousandths of a currency unit (1000 is one unit).
pub type Price = u64;

/// A signed change of an amount of money, in thousandths of a currency unit.
pub type PriceDelta = i64;

/// A length of time, in nanoseconds.
pub type Nanos = u64;

} // verus!
