use vstd::prelude::*;

use crate::quantity::{PerkKind, Quantity, Relation};
use crate::timer::{Timer, TimerView, tick_spec};
use crate::types::{Count, Nanos, PerkId, Price, ProductId, ProductMaterialId};

verus! {

/// One unit's growth of a price factor: `f * growth / 1_000_000`, rounded down and held
/// at `u64::MAX`. `growth` is the per-unit growth factor in millionths.
pub open spec fn next_factor(f: u64, growth: u64) -> u64 {
    let v = f * growth / 1_000_000;
    if v > u64::MAX {
        u64::MAX
    } else {
        v as u64
    }
}

/// The factor, in billionths, by which `n` units of growth multiply a base price.
pub open spec fn growth_factor(growth: u64, n: nat) -> u64
    decreases n,
{
    if n == 0 {
        1_000_000_000
    } else {
        next_factor(growth_factor(growth, (n - 1) as nat), growth)
    }
}

/// Once a growth step leaves the factor where it is, further steps do too.
pub proof fn lemma_growth_factor_settles(growth: u64, k: nat, n: nat)
    requires
        k <= n,
        next_factor(growth_factor(growth, k), growth) == growth_factor(growth, k),
    ensures
        growth_factor(growth, n) == growth_factor(growth, k),
    decreases n - k,
{
    if k < n {
        lemma_growth_factor_settles(growth, k, (n - 1) as nat);
    }
}

/// What a material holds.
pub struct ProductMaterialView {
    pub name: Seq<char>,
    pub base_price: Price,
    pub bought: Count,
    pub count: Count,
    pub growth: u64,
    pub active: bool,
}

/// The current price of a material: its base price grown once for every unit bought,
/// `base_price * growth_factor(growth, bought) / 1_000_000_000`, rounded down and held at
/// `u64::MAX`. `growth` is the per-unit factor in millionths (a growth of 7% every ten
/// units is about 1_006_789). The factor stops growing at `u64::MAX` billionths.
pub open spec fn material_price(m: ProductMaterialView) -> Price {
    let v = m.base_price * growth_factor(m.growth, m.bought as nat) / 1_000_000_000;
    if v > u64::MAX {
        u64::MAX
    } else {
        v as u64
    }
}

/// A material that can be bought, and that products use or are made and sold with.
pub struct ProductMaterial {
    name: String,
    base_price: Price,
    bought: Count,
    count: Count,
    growth: u64,
    active: bool,
}

impl View for ProductMaterial {
    type V = ProductMaterialView;

    closed spec fn view(&self) -> ProductMaterialView {
        ProductMaterialView {
            name: self.name@,
            base_price: self.base_price,
            bought: self.bought,
            count: self.count,
            growth: self.growth,
            active: self.active,
        }
    }
}

impl ProductMaterial {
    /// A material of which `init_bought` units are already bought and in stock.
    pub fn new(init_bought: Count, kind: String, base_price: Price, growth: u64, unlocked: bool) -> (r:
        ProductMaterial)
        ensures
            r@ == (ProductMaterialView {
                name: kind@,
                base_price,
                bought: init_bought,
                count: init_bought,
                growth,
                active: unlocked,
            }),
    {
        ProductMaterial { name: kind, base_price, bought: init_bought, count: init_bought, growth, active: unlocked }
    }

    /// The price of the next unit; see `material_price`.
    pub fn price(&self) -> (r: Price)
        ensures
            r == material_price(self@),
    {
        let n = self.bought;
        let mut f: u64 = 1_000_000_000;
        let mut k: u64 = 0;
        while k < n
            invariant
                k <= n,
                n == self.bought,
                f == growth_factor(self.growth, k as nat),
            decreases n - k,
        {
            let ff = f as u128;
            let gg = self.growth as u128;
            proof {
                assert(ff * gg <= 0xffff_ffff_ffff_ffffu128 * 0xffff_ffff_ffff_ffffu128) by (nonlinear_arith)
                    requires
                        ff <= 0xffff_ffff_ffff_ffffu128,
                        gg <= 0xffff_ffff_ffff_ffffu128,
                ;
            }
            let wide: u128 = ff * gg / 1_000_000;
            let next: u64 = if wide > u64::MAX as u128 {
                u64::MAX
            } else {
                wide as u64
            };
            if next == f {
                proof {
                    lemma_growth_factor_settles(self.growth, k as nat, n as nat);
                }
                k = n;
            } else {
                f = next;
                k = k + 1;
            }
        }
        let bb = self.base_price as u128;
        let ff = f as u128;
        proof {
            assert(bb * ff <= 0xffff_ffff_ffff_ffffu128 * 0xffff_ffff_ffff_ffffu128) by (nonlinear_arith)
                requires
                    bb <= 0xffff_ffff_ffff_ffffu128,
                    ff <= 0xffff_ffff_ffff_ffffu128,
            ;
        }
        let v = bb * ff / 1_000_000_000;
        if v > u64::MAX as u128 {
            u64::MAX
        } else {
            v as u64
        }
    }

    /// One more unit bought and in stock.
    pub(crate) fn buy(&mut self)
        requires
            old(self)@.bought < u64::MAX,
            old(self)@.count < u64::MAX,
        ensures
            final(self)@ == (ProductMaterialView {
                bought: (old(self)@.bought + 1) as Count,
                count: (old(self)@.count + 1) as Count,
                ..old(self)@
            }),
    {
        self.bought = self.bought + 1;
        self.count = self.count + 1;
    }

    pub(crate) fn set_count(&mut self, count: Count)
        ensures
            final(self)@ == (ProductMaterialView { count, ..old(self)@ }),
    {
        self.count = count;
    }

    pub fn name(&self) -> (r: &str)
        ensures
            r@ == self@.name,
    {
        self.name.as_str()
    }

    pub fn base_price(&self) -> (r: Price)
        ensures
            r == self@.base_price,
    {
        self.base_price
    }

    pub fn bought(&self) -> (r: Count)
        ensures
            r == self@.bought,
    {
        self.bought
    }

    pub fn growth(&self) -> (r: u64)
        ensures
            r == self@.growth,
    {
        self.growth
    }

    pub fn active(&self) -> (r: bool)
        ensures
            r == self@.active,
    {
        self.active
    }

    pub fn count(&self) -> (r: Count)
        ensures
            r == self@.count,
    {
        self.count
    }

    pub(crate) fn activate(&mut self)
        ensures
            final(self)@ == (ProductMaterialView { active: true, ..old(self)@ }),
    {
        self.active = true;
    }
}

/// What a perk holds.
pub struct PerkView {
    pub name: Seq<char>,
    pub description: Seq<char>,
    pub condition: Seq<Quantity>,
    pub buy_price: Seq<Quantity>,
    pub effect: (Quantity, PerkKind),
    pub unlocked: bool,
    pub active: bool,
}

/// A perk: once unlocked it may be bought, and once bought its effect is folded into
/// the quantities of the products it is attached to.
pub struct Perk {
    name: String,
    description: String,
    condition: Vec<Quantity>,
    buy_price: Vec<Quantity>,
    perk: (Quantity, PerkKind),
    unlocked: bool,
    active: bool,
}

impl View for Perk {
    type V = PerkView;

    closed spec fn view(&self) -> PerkView {
        PerkView {
            name: self.name@,
            description: self.description@,
            condition: self.condition@,
            buy_price: self.buy_price@,
            effect: self.perk,
            unlocked: self.unlocked,
            active: self.active,
        }
    }
}

impl Perk {
    pub fn new(
        name: String,
        description: String,
        condition: Vec<Quantity>,
        buy_price: Vec<Quantity>,
        perk: (Quantity, PerkKind),
    ) -> (r: Perk)
        ensures
            r@ == (PerkView {
                name: name@,
                description: description@,
                condition: condition@,
                buy_price: buy_price@,
                effect: perk,
                unlocked: false,
                active: false,
            }),
    {
        Perk { name, description, condition, buy_price, perk, unlocked: false, active: false }
    }

    pub fn name(&self) -> (r: &str)
        ensures
            r@ == self@.name,
    {
        self.name.as_str()
    }

    pub fn description(&self) -> (r: &str)
        ensures
            r@ == self@.description,
    {
        self.description.as_str()
    }

    /// The quantities that must all be present for the perk to unlock.
    pub fn condition(&self) -> (r: &Vec<Quantity>)
        ensures
            r@ == self@.condition,
    {
        &self.condition
    }

    /// The quantities paid when the perk is bought.
    pub fn price(&self) -> (r: &Vec<Quantity>)
        ensures
            r@ == self@.buy_price,
    {
        &self.buy_price
    }

    pub fn unlocked(&self) -> (r: bool)
        ensures
            r == self@.unlocked,
    {
        self.unlocked
    }

    pub fn active(&self) -> (r: bool)
        ensures
            r == self@.active,
    {
        self.active
    }

    /// The effect: a quantity and how it combines.
    pub fn perk(&self) -> (r: (Quantity, PerkKind))
        ensures
            r == self@.effect,
    {
        self.perk
    }

    pub(crate) fn unlock(&mut self)
        ensures
            final(self)@ == (PerkView { unlocked: true, ..old(self)@ }),
    {
        self.unlocked = true;
    }

    pub(crate) fn activate(&mut self)
        ensures
            final(self)@ == (PerkView { active: true, ..old(self)@ }),
    {
        self.active = true;
    }
}

/// What a product holds.
pub struct ProductView {
    pub name: Seq<char>,
    pub count: Count,
    pub sold: Count,
    pub price: Option<Price>,
    pub dependencies: Seq<Relation>,
    pub perks: Seq<PerkId>,
    pub unlocks: Seq<(ProductId, Count)>,
    pub active: bool,
}

/// A product: built from its dependencies, held in stock and sold at its price, if it
/// has one. Each entry `(id, n)` of `unlocks` activates product `id` once more than `n`
/// units are in stock.
pub struct Product {
    count: Count,
    sold: Count,
    name: String,
    price: Option<Price>,
    dependencies: Vec<Relation>,
    perks: Vec<PerkId>,
    unlocks: Vec<(ProductId, Count)>,
    active: bool,
}

impl View for Product {
    type V = ProductView;

    closed spec fn view(&self) -> ProductView {
        ProductView {
            name: self.name@,
            count: self.count,
            sold: self.sold,
            price: self.price,
            dependencies: self.dependencies@,
            perks: self.perks@,
            unlocks: self.unlocks@,
            active: self.active,
        }
    }
}

impl Product {
    pub fn new(
        name: String,
        price: Option<Price>,
        dependencies: Vec<Relation>,
        perks: Vec<PerkId>,
        unlocks: Vec<(ProductId, Count)>,
        unlocked: bool,
    ) -> (r: Product)
        ensures
            r@ == (ProductView {
                name: name@,
                count: 0,
                sold: 0,
                price,
                dependencies: dependencies@,
                perks: perks@,
                unlocks: unlocks@,
                active: unlocked,
            }),
    {
        Product { name, count: 0, sold: 0, price, dependencies, perks, unlocks, active: unlocked }
    }

    pub fn name(&self) -> (r: &str)
        ensures
            r@ == self@.name,
    {
        self.name.as_str()
    }

    /// Units in stock.
    pub fn count(&self) -> (r: Count)
        ensures
            r == self@.count,
    {
        self.count
    }

    /// Units sold over the whole game.
    pub fn sold(&self) -> (r: Count)
        ensures
            r == self@.sold,
    {
        self.sold
    }

    /// Units ever produced: in stock plus sold, held at `u64::MAX`.
    pub fn produced(&self) -> (r: Count)
        ensures
            r == crate::quantity::sat_add(self@.count, self@.sold),
    {
        self.count.saturating_add(self.sold)
    }

    pub fn price(&self) -> (r: Option<Price>)
        ensures
            r == self@.price,
    {
        self.price
    }

    pub fn active(&self) -> (r: bool)
        ensures
            r == self@.active,
    {
        self.active
    }

    pub fn dependencies(&self) -> (r: &Vec<Relation>)
        ensures
            r@ == self@.dependencies,
    {
        &self.dependencies
    }

    pub fn perks(&self) -> (r: &Vec<PerkId>)
        ensures
            r@ == self@.perks,
    {
        &self.perks
    }

    pub fn unlocks(&self) -> (r: &Vec<(ProductId, Count)>)
        ensures
            r@ == self@.unlocks,
    {
        &self.unlocks
    }

    pub(crate) fn set_count(&mut self, count: Count)
        ensures
            final(self)@ == (ProductView { count, ..old(self)@ }),
    {
        self.count = count;
    }

    /// Moves `cnt` units from stock to sold.
    pub(crate) fn sell(&mut self, cnt: Count)
        requires
            old(self)@.count >= cnt,
        ensures
            final(self)@ == (ProductView {
                count: (old(self)@.count - cnt) as Count,
                sold: crate::quantity::sat_add(old(self)@.sold, cnt),
                ..old(self)@
            }),
    {
        self.sold = self.sold.saturating_add(cnt);
        self.count = self.count - cnt;
    }

    pub(crate) fn set_price(&mut self, price: Option<Price>)
        ensures
            final(self)@ == (ProductView { price, ..old(self)@ }),
    {
        self.price = price;
    }

    pub(crate) fn activate(&mut self)
        ensures
            final(self)@ == (ProductView { active: true, ..old(self)@ }),
    {
        self.active = true;
    }
}

/// What an automation does when it fires.
#[derive(Clone, Copy, Debug, PartialEq, Eq, Structural)]
pub enum AutomationKind {
    /// Buys one unit of a material.
    Buy(ProductMaterialId),
    /// Builds a product.
    Build(ProductId),
}

/// What an automation holds.
pub struct AutomationView {
    pub name: Seq<char>,
    pub kind: AutomationKind,
    pub timer: Option<TimerView>,
    pub condition: Seq<Quantity>,
    pub buy_price: Seq<Quantity>,
    pub paused: bool,
    pub unlocked: bool,
    pub active: bool,
}

/// Whether an automation fires when `delta` time passes: it must be bought and not
/// paused, and its timer, if it has one, must complete a period.
pub open spec fn fires(a: AutomationView, delta: Nanos) -> bool {
    a.active && !a.paused && match a.timer {
        Some(t) => tick_spec(t, delta).1,
        None => true,
    }
}

/// The automation after `delta` time has passed: the timer of a running automation ticks.
pub open spec fn ticked(a: AutomationView, delta: Nanos) -> AutomationView {
    if a.active && !a.paused {
        match a.timer {
            Some(t) => AutomationView { timer: Some(tick_spec(t, delta).0), ..a },
            None => a,
        }
    } else {
        a
    }
}

/// An automation: once unlocked and bought, it buys a material or builds a product on
/// every step, or on each period of its timer, until paused.
pub struct Automation {
    name: String,
    kind: AutomationKind,
    timer: Option<Timer>,
    condition: Vec<Quantity>,
    buy_price: Vec<Quantity>,
    paused: bool,
    unlocked: bool,
    active: bool,
}

impl View for Automation {
    type V = AutomationView;

    closed spec fn view(&self) -> AutomationView {
        AutomationView {
            name: self.name@,
            kind: self.kind,
            timer: match self.timer {
                Some(t) => Some(t@),
                None => None,
            },
            condition: self.condition@,
            buy_price: self.buy_price@,
            paused: self.paused,
            unlocked: self.unlocked,
            active: self.active,
        }
    }
}

impl Automation {
    pub fn new(
        name: String,
        kind: AutomationKind,
        timer: Option<Timer>,
        condition: Vec<Quantity>,
        buy_price: Vec<Quantity>,
    ) -> (r: Automation)
        ensures
            r@ == (AutomationView {
                name: name@,
                kind,
                timer: match timer {
                    Some(t) => Some(t@),
                    None => None,
                },
                condition: condition@,
                buy_price: buy_price@,
                paused: false,
                unlocked: false,
                active: false,
            }),
    {
        Automation { name, kind, timer, condition, buy_price, paused: false, unlocked: false, active: false }
    }

    pub fn name(&self) -> (r: &str)
        ensures
            r@ == self@.name,
    {
        self.name.as_str()
    }

    pub fn paused(&self) -> (r: bool)
        ensures
            r == self@.paused,
    {
        self.paused
    }

    pub fn unlocked(&self) -> (r: bool)
        ensures
            r == self@.unlocked,
    {
        self.unlocked
    }

    pub fn active(&self) -> (r: bool)
        ensures
            r == self@.active,
    {
        self.active
    }

    /// The quantities paid when the automation is bought.
    pub fn price(&self) -> (r: &Vec<Quantity>)
        ensures
            r@ == self@.buy_price,
    {
        &self.buy_price
    }

    pub fn kind(&self) -> (r: AutomationKind)
        ensures
            r == self@.kind,
    {
        self.kind
    }

    /// The period of the timer, if the automation has one.
    pub fn period(&self) -> (r: Option<Nanos>)
        ensures
            r == match self@.timer {
                Some(t) => Some(t.period),
                None => None,
            },
    {
        match &self.timer {
            Some(t) => Some(t.duration()),
            None => None,
        }
    }

    /// The quantities that must all be present for the automation to unlock.
    pub fn condition(&self) -> (r: &Vec<Quantity>)
        ensures
            r@ == self@.condition,
    {
        &self.condition
    }

    /// Lets `delta` time pass; returns whether the automation fires.
    pub(crate) fn run(&mut self, delta: Nanos) -> (r: bool)
        requires
            match old(self)@.timer {
                Some(t) => t.period > 0,
                None => true,
            },
        ensures
            r == fires(old(self)@, delta),
            final(self)@ == ticked(old(self)@, delta),
    {
        if !self.active || self.paused {
            return false;
        }
        match &mut self.timer {
            Some(t) => t.tick(delta),
            None => true,
        }
    }

    pub(crate) fn toggle(&mut self)
        ensures
            final(self)@ == (AutomationView { paused: !old(self)@.paused, ..old(self)@ }),
    {
        self.paused = !self.paused;
    }

    pub(crate) fn unlock(&mut self)
        ensures
            final(self)@ == (AutomationView { unlocked: true, ..old(self)@ }),
    {
        self.unlocked = true;
    }

    pub(crate) fn activate(&mut self)
        ensures
            final(self)@ == (AutomationView { active: true, ..old(self)@ }),
    {
        self.active = true;
    }
}

/// What a badge holds.
pub struct BadgeView {
    pub name: Seq<char>,
    pub description: Seq<char>,
    pub condition: Seq<Quantity>,
    pub unlocked: bool,
}

/// An achievement, unlocked once its condition holds.
pub struct Badge {
    name: String,
    description: String,
    condition: Vec<Quantity>,
    unlocked: bool,
}

impl View for Badge {
    type V = BadgeView;

    closed spec fn view(&self) -> BadgeView {
        BadgeView {
            name: self.name@,
            description: self.description@,
            condition: self.condition@,
            unlocked: self.unlocked,
        }
    }
}

impl Badge {
    pub fn new(name: String, description: String, condition: Vec<Quantity>) -> (r: Badge)
        ensures
            r@ == (BadgeView {
                name: name@,
                description: description@,
                condition: condition@,
                unlocked: false,
            }),
    {
        Badge { name, description, condition, unlocked: false }
    }

    pub fn name(&self) -> (r: &str)
        ensures
            r@ == self@.name,
    {
        self.name.as_str()
    }

    pub fn description(&self) -> (r: &str)
        ensures
            r@ == self@.description,
    {
        self.description.as_str()
    }

    pub fn unlocked(&self) -> (r: bool)
        ensures
            r == self@.unlocked,
    {
        self.unlocked
    }

    /// The quantities that must all be present for the badge to unlock.
    pub fn condition(&self) -> (r: &Vec<Quantity>)
        ensures
            r@ == self@.condition,
    {
        &self.condition
    }

    pub(crate) fn unlock(&mut self)
        ensures
            final(self)@ == (BadgeView { unlocked: true, ..old(self)@ }),
    {
        self.unlocked = true;
    }
}

/// The win condition: every quantity must be present at once.
pub struct Objective(Vec<Quantity>);

impl View for Objective {
    type V = Seq<Quantity>;

    closed spec fn view(&self) -> Seq<Quantity> {
        self.0@
    }
}

impl Objective {
    pub fn new(conds: Vec<Quantity>) -> (r: Objective)
        ensures
            r@ == conds@,
    {
        Objective(conds)
    }

    pub fn win_condition(&self) -> (r: &[Quantity])
        ensures
            r@ == self@,
    {
        self.0.as_slice()
    }
}

} // verus!
