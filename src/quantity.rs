use vstd::prelude::*;

use crate::types::{Count, Price, ProductId, ProductMaterialId};

verus! {

/// `x + y`, held at `u64::MAX` when it would not fit.
pub open spec fn sat_add(x: u64, y: u64) -> u64 {
    if x + y > u64::MAX {
        u64::MAX
    } else {
        (x + y) as u64
    }
}

/// `x * y`, held at `u64::MAX` when it would not fit.
pub open spec fn sat_mul(x: u64, y: u64) -> u64 {
    if x * y > u64::MAX {
        u64::MAX
    } else {
        (x * y) as u64
    }
}

pub fn saturating_mul(x: u64, y: u64) -> (r: u64)
    ensures
        r == sat_mul(x, y),
{
    match x.checked_mul(y) {
        Some(v) => v,
        None => u64::MAX,
    }
}

/// Which counter of a product a product quantity is measured against.
#[derive(Clone, Copy, Debug, PartialEq, Eq, Structural)]
pub enum ProductConditionKind {
    /// Units currently in stock.
    Count,
    /// Units sold over the whole game.
    Sold,
    /// Units ever produced: in stock plus sold.
    Produced,
}

/// An amount of some asset: money, a material or a product.
///
/// A product quantity may say which counter of the product it is measured against;
/// without one it counts the units ever produced.
#[derive(Clone, Copy, Debug)]
pub enum Quantity {
    Money(Price),
    Material(ProductMaterialId, Count),
    Product(ProductId, Count, Option<ProductConditionKind>),
}

/// The amount a quantity holds, whatever it is an amount of.
pub open spec fn amount_of(q: Quantity) -> u64 {
    match q {
        Quantity::Money(x) => x,
        Quantity::Material(_, c) => c,
        Quantity::Product(_, c, _) => c,
    }
}

/// Two quantities are similar when they are amounts of the same kind of asset.
pub open spec fn similar_spec(a: Quantity, b: Quantity) -> bool {
    match a {
        Quantity::Money(_) => b is Money,
        Quantity::Material(_, _) => b is Material,
        Quantity::Product(_, _, _) => b is Product,
    }
}

/// Two quantities draw on the same ledger entry: money, or one material, or one product.
pub open spec fn same_resource(a: Quantity, b: Quantity) -> bool {
    match a {
        Quantity::Money(_) => b is Money,
        Quantity::Material(i, _) => match b {
            Quantity::Material(j, _) => i == j,
            _ => false,
        },
        Quantity::Product(i, _, _) => match b {
            Quantity::Product(j, _, _) => i == j,
            _ => false,
        },
    }
}

/// How a perk's effect combines with an amount.
#[derive(Clone, Copy, Debug, PartialEq, Eq, Structural)]
pub enum PerkKind {
    Add,
    Subtract,
    Multiply,
    Divide,
}

/// The amount `x` combined with `y`. Results are held within `0..=u64::MAX`; a non-zero
/// amount divided by zero becomes `u64::MAX`, and zero divided by zero stays zero.
pub open spec fn arith(kind: PerkKind, x: u64, y: u64) -> u64 {
    match kind {
        PerkKind::Add => sat_add(x, y),
        PerkKind::Subtract => if x >= y {
            (x - y) as u64
        } else {
            0
        },
        PerkKind::Multiply => sat_mul(x, y),
        PerkKind::Divide => if y == 0 {
            if x == 0 {
                0
            } else {
                u64::MAX
            }
        } else {
            (x / y) as u64
        },
    }
}

/// `v` held at `u64::MAX`.
pub open spec fn cap_u64(v: int) -> u64 {
    if v > u64::MAX {
        u64::MAX
    } else {
        v as u64
    }
}

/// Money amount `x` combined with money amount `y`; both are in thousandths, so a
/// product is scaled back by 1000 (`x * y / 1000`) and a quotient scaled up by 1000
/// (`x * 1000 / y`), rounding down. Sums and differences are as for `arith`.
pub open spec fn arith_money(kind: PerkKind, x: u64, y: u64) -> u64 {
    match kind {
        PerkKind::Multiply => cap_u64(x as int * y as int / 1000),
        PerkKind::Divide => if y == 0 {
            if x == 0 {
                0
            } else {
                u64::MAX
            }
        } else {
            cap_u64(x as int * 1000 / y as int)
        },
        _ => arith(kind, x, y),
    }
}

/// `q` with `other` folded into its amount, when both are amounts of the very same
/// asset (money, or the same material, or the same product); otherwise `q` unchanged.
/// Money combines as amounts in thousandths (`arith_money`), material and product
/// counts as plain numbers (`arith`). A product quantity keeps its own counter kind.
pub open spec fn combine(q: Quantity, other: Quantity, kind: PerkKind) -> Quantity {
    match q {
        Quantity::Money(x) => match other {
            Quantity::Money(y) => Quantity::Money(arith_money(kind, x, y)),
            _ => q,
        },
        Quantity::Material(i, x) => match other {
            Quantity::Material(j, y) => if i == j {
                Quantity::Material(i, arith(kind, x, y))
            } else {
                q
            },
            _ => q,
        },
        Quantity::Product(i, x, c) => match other {
            Quantity::Product(j, y, _) => if i == j {
                Quantity::Product(i, arith(kind, x, y), c)
            } else {
                q
            },
            _ => q,
        },
    }
}

impl PerkKind {
    /// Combines two amounts by this operator.
    pub fn apply(self, x: u64, y: u64) -> (r: u64)
        ensures
            r == arith(self, x, y),
    {
        match self {
            PerkKind::Add => x.saturating_add(y),
            PerkKind::Subtract => x.saturating_sub(y),
            PerkKind::Multiply => saturating_mul(x, y),
            PerkKind::Divide => {
                if y == 0 {
                    if x == 0 {
                        0
                    } else {
                        u64::MAX
                    }
                } else {
                    x / y
                }
            },
        }
    }
}

impl PerkKind {
    /// Combines two money amounts, in thousandths, by this operator.
    pub fn apply_money(self, x: u64, y: u64) -> (r: u64)
        ensures
            r == arith_money(self, x, y),
    {
        match self {
            PerkKind::Multiply => {
                let xx = x as u128;
                let yy = y as u128;
                proof {
                    assert(xx * yy <= 0xffff_ffff_ffff_ffffu128 * 0xffff_ffff_ffff_ffffu128) by (nonlinear_arith)
                        requires
                            xx <= 0xffff_ffff_ffff_ffffu128,
                            yy <= 0xffff_ffff_ffff_ffffu128,
                    ;
                }
                let v = xx * yy / 1000;
                if v > u64::MAX as u128 {
                    u64::MAX
                } else {
                    v as u64
                }
            },
            PerkKind::Divide => {
                if y == 0 {
                    if x == 0 {
                        0
                    } else {
                        u64::MAX
                    }
                } else {
                    let v = x as u128 * 1000 / y as u128;
                    if v > u64::MAX as u128 {
                        u64::MAX
                    } else {
                        v as u64
                    }
                }
            },
            _ => self.apply(x, y),
        }
    }
}

impl Quantity {
    /// Whether both quantities are amounts of the same kind of asset.
    pub fn similar(&self, other: &Quantity) -> (r: bool)
        ensures
            r == similar_spec(*self, *other),
    {
        match self {
            Quantity::Money(_) => matches!(other, Quantity::Money(_)),
            Quantity::Material(_, _) => matches!(other, Quantity::Material(_, _)),
            Quantity::Product(_, _, _) => matches!(other, Quantity::Product(_, _, _)),
        }
    }

    /// Combines the amounts of two quantities of the same asset; see `combine`.
    pub fn op(&self, other: &Quantity, kind: PerkKind) -> (r: Quantity)
        ensures
            r == combine(*self, *other, kind),
    {
        match (*self, *other) {
            (Quantity::Money(x), Quantity::Money(y)) => Quantity::Money(kind.apply_money(x, y)),
            (Quantity::Material(i, x), Quantity::Material(j, y)) => {
                if i == j {
                    Quantity::Material(i, kind.apply(x, y))
                } else {
                    *self
                }
            },
            (Quantity::Product(i, x, c), Quantity::Product(j, y, _)) => {
                if i == j {
                    Quantity::Product(i, kind.apply(x, y), c)
                } else {
                    *self
                }
            },
            _ => *self,
        }
    }

    /// Whether both quantities draw on the same ledger entry.
    pub fn same_resource(&self, other: &Quantity) -> (r: bool)
        ensures
            r == same_resource(*self, *other),
    {
        match (*self, *other) {
            (Quantity::Money(_), Quantity::Money(_)) => true,
            (Quantity::Material(i, _), Quantity::Material(j, _)) => i == j,
            (Quantity::Product(i, _, _), Quantity::Product(j, _, _)) => i == j,
            _ => false,
        }
    }

    /// The amount this quantity holds.
    pub fn quantity(&self) -> (r: u64)
        ensures
            r == amount_of(*self),
    {
        match self {
            Quantity::Money(x) => *x,
            Quantity::Material(_, c) => *c,
            Quantity::Product(_, c, _) => *c,
        }
    }
}

/// How a dependency takes part in building or selling a product.
#[derive(Clone, Copy, Debug, PartialEq, Eq, Structural)]
pub enum RelationKind {
    /// The quantity is used up when the product is built.
    Consumes,
    /// The quantity must be present to build the product, and bounds how many are built.
    ManufacturedBy,
    /// The quantity must be present to sell the product, and bounds how many are sold.
    SoldBy,
    /// The quantity must be present, without bounding how many are built.
    Needs,
}

/// A dependency of a product on a quantity.
#[derive(Clone, Copy, Debug)]
pub struct Relation {
    pub kind: RelationKind,
    pub quantity: Quantity,
}

impl Relation {
    pub fn new(kind: RelationKind, quantity: Quantity) -> (r: Relation)
        ensures
            r == (Relation { kind, quantity }),
    {
        Relation { kind, quantity }
    }

    pub fn needs(quantity: Quantity) -> (r: Relation)
        ensures
            r == (Relation { kind: RelationKind::Needs, quantity }),
    {
        Relation { kind: RelationKind::Needs, quantity }
    }

    pub fn consumes(quantity: Quantity) -> (r: Relation)
        ensures
            r == (Relation { kind: RelationKind::Consumes, quantity }),
    {
        Relation { kind: RelationKind::Consumes, quantity }
    }

    pub fn kind(&self) -> (r: RelationKind)
        ensures
            r == self.kind,
    {
        self.kind
    }

    pub fn quantity(&self) -> (r: &Quantity)
        ensures
            *r == self.quantity,
    {
        &self.quantity
    }

    pub fn similar_quantity(&self, other: &Quantity) -> (r: bool)
        ensures
            r == similar_spec(self.quantity, *other),
    {
        self.quantity.similar(other)
    }

    /// This relation with a perk's effect folded into its quantity.
    pub fn with_effect(&self, effect: Quantity, kind: PerkKind) -> (r: Relation)
        ensures
            r == (Relation { kind: self.kind, quantity: combine(self.quantity, effect, kind) }),
    {
        Relation { kind: self.kind, quantity: self.quantity.op(&effect, kind) }
    }
}

} // verus!
