use vstd::prelude::*;

use crate::catalog::{
    Automation, AutomationKind, AutomationView, Badge, BadgeView, Objective, Perk, PerkView,
    Product, ProductMaterial, fires, ticked,
};
use crate::quantity::{
    ProductConditionKind, Quantity, Relation, RelationKind, amount_of, same_resource,
    saturating_mul,
};
use crate::rules::{
    StateView, activate_all, activated_by, activation, as_stock_price, automation_bought,
    automation_valid, build_blocked, build_blocked_upto, build_count, build_outcome, buy_all,
    buy_one, buy_times, condition_holds, conditions_hold, construct, construct_all, consume_upto,
    depends_on_product, distinct_resources, expanding, fold_perks, folded_dep,
    lemma_activated_catalog, lemma_closed_holds_path, lemma_conditions_same_ledger,
    lemma_consume_rest, lemma_consume_step, lemma_dep_in_range, lemma_expanding_end,
    lemma_expanding_material, lemma_expanding_other, lemma_expanding_start,
    lemma_fold_keeps_resource, lemma_pay_rest, lemma_queue_valid, lemma_reaches_self,
    lemma_reaches_step, lemma_same_catalog_trans, lemma_same_catalog_valid, limit_count, limit_upto, pay_upto,
    perk_bought, perked, perked_output, present_count, price_changed, price_covered, product_valid,
    quantities_valid, quantity_valid, queue_upto, reaches, refers_to_product, resource_amount,
    sale, same_catalog, sell_multiplier_upto, sell_upto, step, tick_upto, unlock_all, unlock_queue,
    valid_state, with_material_active, with_product_active, with_resource, with_stock_added,
};
use crate::types::{
    AutomationId, Count, Nanos, PerkId, Price, PriceDelta, ProductId, ProductMaterialId,
};

verus! {

/// The game: its money, objective and catalog, and whether it is won.
pub struct State {
    money: Price,
    objective: Objective,
    materials: Vec<ProductMaterial>,
    products: Vec<Product>,
    badges: Vec<Badge>,
    perks: Vec<Perk>,
    automations: Vec<Automation>,
    win: bool,
}

/// The state that `State::new` makes of its arguments.
pub open spec fn initial_view(
    init_money: Price,
    objective: Objective,
    materials: Seq<ProductMaterial>,
    products: Seq<Product>,
    badges: Seq<Badge>,
    perks: Seq<Perk>,
    automations: Seq<Automation>,
) -> StateView {
    StateView {
        money: init_money,
        objective: objective@,
        materials: materials.map_values(|m: ProductMaterial| m@),
        products: products.map_values(|p: Product| p@),
        badges: badges.map_values(|b: Badge| b@),
        perks: perks.map_values(|p: Perk| p@),
        automations: automations.map_values(|a: Automation| a@),
        win: false,
    }
}

/// Whether no two entries of `qs` draw on the same ledger entry.
fn distinct_ok(qs: &Vec<Quantity>) -> (r: bool)
    ensures
        r == distinct_resources(qs@),
{
    let n = qs.len();
    let mut j: usize = 0;
    while j < n
        invariant
            j <= n,
            n == qs@.len(),
            forall|a: int, b: int| 0 <= a < j && a < b < n ==> !same_resource(#[trigger] qs@[a], #[trigger] qs@[b]),
        decreases n - j,
    {
        let mut k: usize = j + 1;
        while k < n
            invariant
                j < n,
                j + 1 <= k <= n,
                n == qs@.len(),
                forall|a: int, b: int| 0 <= a < j && a < b < n ==> !same_resource(#[trigger] qs@[a], #[trigger] qs@[b]),
                forall|b: int| j < b < k ==> !same_resource(qs@[j as int], #[trigger] qs@[b]),
            decreases n - k,
        {
            if qs[j].same_resource(&qs[k]) {
                return false;
            }
            k = k + 1;
        }
        j = j + 1;
    }
    true
}

impl Default for State {
    /// An empty game: no money, no catalog, an objective with no condition, not won.
    fn default() -> (r: State)
        ensures
            r@ == (StateView {
                money: 0,
                objective: Seq::empty(),
                materials: Seq::empty(),
                products: Seq::empty(),
                badges: Seq::empty(),
                perks: Seq::empty(),
                automations: Seq::empty(),
                win: false,
            }),
            r.wf(),
    {
        let r = State {
            money: 0,
            objective: Objective::new(Vec::new()),
            materials: Vec::new(),
            products: Vec::new(),
            badges: Vec::new(),
            perks: Vec::new(),
            automations: Vec::new(),
            win: false,
        };
        assert(r@.materials =~= Seq::empty());
        assert(r@.products =~= Seq::empty());
        assert(r@.badges =~= Seq::empty());
        assert(r@.perks =~= Seq::empty());
        assert(r@.automations =~= Seq::empty());
        r
    }
}

impl View for State {
    type V = StateView;

    closed spec fn view(&self) -> StateView {
        StateView {
            money: self.money,
            objective: self.objective@,
            materials: self.materials@.map_values(|m: ProductMaterial| m@),
            products: self.products@.map_values(|p: Product| p@),
            badges: self.badges@.map_values(|b: Badge| b@),
            perks: self.perks@.map_values(|p: Perk| p@),
            automations: self.automations@.map_values(|a: Automation| a@),
            win: self.win,
        }
    }
}

impl State {
    pub open spec fn wf(&self) -> bool {
        valid_state(self@)
    }

    /// A game with the given money and catalog, not won yet.
    pub fn new(
        init_money: Price,
        objective: Objective,
        materials: Vec<ProductMaterial>,
        products: Vec<Product>,
        badges: Vec<Badge>,
        perks: Vec<Perk>,
        automations: Vec<Automation>,
    ) -> (r: State)
        requires
            valid_state(
                initial_view(init_money, objective, materials@, products@, badges@, perks@, automations@),
            ),
        ensures
            r@ == initial_view(init_money, objective, materials@, products@, badges@, perks@, automations@),
            r.wf(),
    {
        State { money: init_money, objective, materials, products, badges, perks, automations, win: false }
    }

    /// A game as `new` makes it, or `None` when the catalog is not valid (see
    /// `valid_state`): an identifier out of range, a timer with a zero period, or a recipe
    /// or price that names one ledger entry twice.
    pub fn try_new(
        init_money: Price,
        objective: Objective,
        materials: Vec<ProductMaterial>,
        products: Vec<Product>,
        badges: Vec<Badge>,
        perks: Vec<Perk>,
        automations: Vec<Automation>,
    ) -> (r: Option<State>)
        ensures
            r is Some <==> valid_state(
                initial_view(init_money, objective, materials@, products@, badges@, perks@, automations@),
            ),
            r matches Some(st) ==> st@ == initial_view(
                init_money,
                objective,
                materials@,
                products@,
                badges@,
                perks@,
                automations@,
            ),
    {
        let st = State { money: init_money, objective, materials, products, badges, perks, automations, win: false };
        if st.is_valid() {
            Some(st)
        } else {
            None
        }
    }

    fn quantity_ok(&self, q: &Quantity) -> (r: bool)
        ensures
            r == quantity_valid(self@, *q),
    {
        match q {
            Quantity::Money(_) => true,
            Quantity::Material(i, _) => *i < self.materials.len(),
            Quantity::Product(i, _, _) => *i < self.products.len(),
        }
    }

    fn quantities_ok(&self, qs: &Vec<Quantity>) -> (r: bool)
        ensures
            r == quantities_valid(self@, qs@),
    {
        let mut i: usize = 0;
        while i < qs.len()
            invariant
                i <= qs.len(),
                forall|k: int| 0 <= k < i ==> quantity_valid(self@, #[trigger] qs@[k]),
            decreases qs.len() - i,
        {
            if !self.quantity_ok(&qs[i]) {
                return false;
            }
            i = i + 1;
        }
        true
    }

    fn product_ok(&self, p: &Product) -> (r: bool)
        ensures
            r == product_valid(self@, p@),
    {
        let deps = p.dependencies();
        let n = deps.len();
        let mut j: usize = 0;
        while j < n
            invariant
                j <= n,
                n == deps@.len(),
                deps@ == p@.dependencies,
                forall|k: int| 0 <= k < j ==> quantity_valid(self@, #[trigger] deps@[k].quantity),
            decreases n - j,
        {
            if !self.quantity_ok(&deps[j].quantity) {
                return false;
            }
            j = j + 1;
        }
        let perks = p.perks();
        let mut j: usize = 0;
        while j < perks.len()
            invariant
                j <= perks@.len(),
                perks@ == p@.perks,
                forall|k: int| 0 <= k < j ==> #[trigger] perks@[k] < self@.perks.len(),
            decreases perks.len() - j,
        {
            if perks[j] >= self.perks.len() {
                return false;
            }
            j = j + 1;
        }
        let unlocks = p.unlocks();
        let mut j: usize = 0;
        while j < unlocks.len()
            invariant
                j <= unlocks@.len(),
                unlocks@ == p@.unlocks,
                forall|k: int| 0 <= k < j ==> #[trigger] unlocks@[k].0 < self@.products.len(),
            decreases unlocks.len() - j,
        {
            if unlocks[j].0 >= self.products.len() {
                return false;
            }
            j = j + 1;
        }
        let mut j: usize = 0;
        while j < n
            invariant
                j <= n,
                n == deps@.len(),
                deps@ == p@.dependencies,
                forall|a: int, b: int|
                    0 <= a < j && a < b < n && #[trigger] deps@[a].kind == RelationKind::Consumes
                        && #[trigger] deps@[b].kind == RelationKind::Consumes
                        ==> !same_resource(deps@[a].quantity, deps@[b].quantity),
            decreases n - j,
        {
            let mut k: usize = j + 1;
            while k < n
                invariant
                    j < n,
                    j + 1 <= k <= n,
                    n == deps@.len(),
                    deps@ == p@.dependencies,
                    forall|a: int, b: int|
                        0 <= a < j && a < b < n && #[trigger] deps@[a].kind == RelationKind::Consumes
                            && #[trigger] deps@[b].kind == RelationKind::Consumes
                            ==> !same_resource(deps@[a].quantity, deps@[b].quantity),
                    forall|b: int|
                        j < b < k && deps@[j as int].kind == RelationKind::Consumes
                            && #[trigger] deps@[b].kind == RelationKind::Consumes
                            ==> !same_resource(deps@[j as int].quantity, deps@[b].quantity),
                decreases n - k,
            {
                if deps[j].kind == RelationKind::Consumes && deps[k].kind == RelationKind::Consumes
                    && deps[j].quantity.same_resource(&deps[k].quantity) {
                    assert(p@.dependencies[j as int].kind == RelationKind::Consumes
                        && p@.dependencies[k as int].kind == RelationKind::Consumes);
                    return false;
                }
                k = k + 1;
            }
            j = j + 1;
        }
        true
    }

    fn automation_ok(&self, a: &Automation) -> (r: bool)
        ensures
            r == automation_valid(self@, a@),
    {
        let kind_ok = match a.kind() {
            AutomationKind::Buy(m) => m < self.materials.len(),
            AutomationKind::Build(p) => p < self.products.len(),
        };
        let timer_ok = match a.period() {
            Some(d) => d > 0,
            None => true,
        };
        kind_ok && timer_ok && self.quantities_ok(a.condition()) && self.quantities_ok(a.price()) && distinct_ok(
            a.price(),
        )
    }

    /// Whether the state is valid: see `valid_state`.
    pub fn is_valid(&self) -> (r: bool)
        ensures
            r == valid_state(self@),
    {
        let objective = self.objective.win_condition();
        let mut i: usize = 0;
        while i < objective.len()
            invariant
                i <= objective@.len(),
                objective@ == self@.objective,
                forall|k: int| 0 <= k < i ==> quantity_valid(self@, #[trigger] objective@[k]),
            decreases objective.len() - i,
        {
            if !self.quantity_ok(&objective[i]) {
                return false;
            }
            i = i + 1;
        }
        let mut i: usize = 0;
        while i < self.products.len()
            invariant
                i <= self@.products.len(),
                forall|k: int| 0 <= k < i ==> product_valid(self@, #[trigger] self@.products[k]),
            decreases self.products.len() - i,
        {
            assert(self@.products[i as int] == self.products@[i as int]@);
            if !self.product_ok(&self.products[i]) {
                return false;
            }
            i = i + 1;
        }
        let mut i: usize = 0;
        while i < self.perks.len()
            invariant
                i <= self@.perks.len(),
                forall|k: int|
                    0 <= k < i ==> quantities_valid(self@, self@.perks[k].condition)
                        && quantities_valid(self@, (#[trigger] self@.perks[k]).buy_price)
                        && distinct_resources(self@.perks[k].buy_price),
            decreases self.perks.len() - i,
        {
            assert(self@.perks[i as int] == self.perks@[i as int]@);
            if !self.quantities_ok(self.perks[i].condition()) || !self.quantities_ok(self.perks[i].price())
                || !distinct_ok(self.perks[i].price()) {
                return false;
            }
            i = i + 1;
        }
        let mut i: usize = 0;
        while i < self.badges.len()
            invariant
                i <= self@.badges.len(),
                forall|k: int| 0 <= k < i ==> quantities_valid(self@, #[trigger] self@.badges[k].condition),
            decreases self.badges.len() - i,
        {
            assert(self@.badges[i as int] == self.badges@[i as int]@);
            if !self.quantities_ok(self.badges[i].condition()) {
                return false;
            }
            i = i + 1;
        }
        let mut i: usize = 0;
        while i < self.automations.len()
            invariant
                i <= self@.automations.len(),
                forall|k: int| 0 <= k < i ==> automation_valid(self@, #[trigger] self@.automations[k]),
            decreases self.automations.len() - i,
        {
            assert(self@.automations[i as int] == self.automations@[i as int]@);
            if !self.automation_ok(&self.automations[i]) {
                return false;
            }
            i = i + 1;
        }
        true
    }
}

impl State {
    /// How many times `q` fits in what the ledger holds; see `present_count`.
    pub fn quantity_present_count(&self, q: &Quantity) -> (r: Count)
        requires
            quantity_valid(self@, *q),
        ensures
            r == present_count(self@, *q),
    {
        match q {
            Quantity::Money(a) => {
                if *a == 0 {
                    u64::MAX
                } else {
                    self.money / *a
                }
            },
            Quantity::Material(i, c) => {
                if *c == 0 {
                    u64::MAX
                } else {
                    self.materials[*i].count() / *c
                }
            },
            Quantity::Product(i, c, kind) => {
                if *c == 0 {
                    u64::MAX
                } else {
                    let p = &self.products[*i];
                    let counter: u128 = match kind {
                        Some(ProductConditionKind::Count) => p.count() as u128,
                        Some(ProductConditionKind::Sold) => p.sold() as u128,
                        _ => p.count() as u128 + p.sold() as u128,
                    };
                    let v = counter / (*c as u128);
                    if v > u64::MAX as u128 {
                        u64::MAX
                    } else {
                        v as u64
                    }
                }
            },
        }
    }

    /// Whether the ledger holds at least `cond`; a product quantity is measured against
    /// the counter it names, or the units ever produced.
    pub fn check_condition(&self, cond: &Quantity) -> (r: bool)
        requires
            quantity_valid(self@, *cond),
        ensures
            r == condition_holds(self@, *cond),
    {
        match cond {
            Quantity::Money(a) => self.money >= *a,
            Quantity::Material(i, c) => self.materials[*i].count() >= *c,
            Quantity::Product(i, c, kind) => {
                let p = &self.products[*i];
                match kind {
                    Some(ProductConditionKind::Count) => p.count() >= *c,
                    Some(ProductConditionKind::Sold) => p.sold() >= *c,
                    _ => p.count() >= *c || p.sold() >= *c - p.count(),
                }
            },
        }
    }

    /// Whether every one of `conds` holds.
    pub fn check_conditions(&self, conds: &[Quantity]) -> (r: bool)
        requires
            quantities_valid(self@, conds@),
        ensures
            r == conditions_hold(self@, conds@),
    {
        let mut i: usize = 0;
        while i < conds.len()
            invariant
                i <= conds@.len(),
                quantities_valid(self@, conds@),
                forall|k: int| 0 <= k < i ==> condition_holds(self@, #[trigger] conds@[k]),
            decreases conds.len() - i,
        {
            if !self.check_condition(&conds[i]) {
                return false;
            }
            i = i + 1;
        }
        true
    }

    /// `cond` with the effects of product `id`'s active perks folded into its quantity,
    /// in the order the product lists them.
    pub fn apply_perk(&self, id: ProductId, cond: Relation) -> (r: Relation)
        requires
            self.wf(),
            id < self@.products.len(),
        ensures
            r == (Relation { kind: cond.kind, quantity: perked(self@, id, cond.quantity) }),
    {
        assert(product_valid(self@, self@.products[id as int]));
        let ids = self.products[id].perks();
        let mut acc = cond;
        let mut i: usize = 0;
        while i < ids.len()
            invariant
                self.wf(),
                id < self@.products.len(),
                ids@ == self@.products[id as int].perks,
                product_valid(self@, self@.products[id as int]),
                i <= ids@.len(),
                acc == (Relation { kind: cond.kind, quantity: fold_perks(self@.perks, ids@.take(i as int), cond.quantity) }),
            decreases ids.len() - i,
        {
            let pid = ids[i];
            assert(ids@[i as int] < self@.perks.len());
            let perk = &self.perks[pid];
            assert(ids@.take(i + 1).drop_last() =~= ids@.take(i as int));
            assert(ids@.take(i + 1).last() == pid);
            if perk.active() {
                let (effect, kind) = perk.perk();
                acc = acc.with_effect(effect, kind);
            }
            i = i + 1;
        }
        assert(ids@.take(ids@.len() as int) =~= ids@);
        acc
    }

    /// `base_build_count` units of product `id` with the product's active perks folded in.
    pub fn apply_product_perks(&self, base_build_count: Count, id: ProductId) -> (r: Count)
        requires
            self.wf(),
            id < self@.products.len(),
        ensures
            r == perked_output(self@, id, base_build_count),
    {
        let cond = Relation::needs(Quantity::Product(id, base_build_count, None));
        let cond = self.apply_perk(id, cond);
        cond.quantity.quantity()
    }

    fn resource_of(&self, q: &Quantity) -> (r: u64)
        requires
            quantity_valid(self@, *q),
        ensures
            r == resource_amount(self@, *q),
    {
        match q {
            Quantity::Money(_) => self.money,
            Quantity::Material(i, _) => self.materials[*i].count(),
            Quantity::Product(i, _, _) => self.products[*i].count(),
        }
    }

    fn set_resource(&mut self, q: &Quantity, v: u64)
        requires
            quantity_valid(old(self)@, *q),
        ensures
            final(self)@ == with_resource(old(self)@, *q, v),
    {
        match q {
            Quantity::Money(_) => {
                self.money = v;
            },
            Quantity::Material(i, _) => {
                self.materials[*i].set_count(v);
                assert(self@.materials =~= with_resource(old(self)@, *q, v).materials);
            },
            Quantity::Product(i, _, _) => {
                self.products[*i].set_count(v);
                assert(self@.products =~= with_resource(old(self)@, *q, v).products);
            },
        }
    }

    /// Builds as many units of product `id` as the ledger allows, takes what they consume
    /// and returns how many units the build yields; see `build_outcome`. The built units
    /// are not stocked here: `construct_product` does that.
    pub fn build_product_count(&mut self, id: ProductId) -> (r: u64)
        requires
            old(self).wf(),
            id < old(self)@.products.len(),
        ensures
            (final(self)@, r) == build_outcome(old(self)@, id),
            final(self).wf(),
            same_catalog(old(self)@, final(self)@),
    {
        let ghost s0 = self@;
        assert(product_valid(s0, s0.products[id as int]));
        let n = self.products[id].dependencies().len();
        let mut folded: Vec<Relation> = Vec::new();
        let mut max_buy_count: u64 = u64::MAX;
        let mut max_build_count: u64 = u64::MAX;
        let mut j: usize = 0;
        while j < n
            invariant
                self@ == s0,
                self.wf(),
                id < s0.products.len(),
                n == s0.products[id as int].dependencies.len(),
                product_valid(s0, s0.products[id as int]),
                j <= n,
                folded@.len() == j,
                forall|k: int| 0 <= k < j ==> #[trigger] folded@[k] == folded_dep(s0, id, k),
                !build_blocked_upto(s0, id, j as int),
                max_buy_count == limit_upto(s0, id, RelationKind::Consumes, j as nat),
                max_build_count == limit_upto(s0, id, RelationKind::ManufacturedBy, j as nat),
            decreases n - j,
        {
            let dep = self.products[id].dependencies()[j];
            let cond = self.apply_perk(id, dep);
            proof {
                lemma_fold_keeps_resource(s0.perks, s0.products[id as int].perks, dep.quantity, dep.quantity);
                assert(quantity_valid(s0, s0.products[id as int].dependencies[j as int].quantity));
            }
            let cnt = self.quantity_present_count(&cond.quantity);
            let lim = if cond.kind == RelationKind::Consumes {
                let stock_q = match cond.quantity {
                    Quantity::Product(p, c, _) => Quantity::Product(p, c, Some(ProductConditionKind::Count)),
                    other => other,
                };
                let stock = self.quantity_present_count(&stock_q);
                if stock < cnt {
                    stock
                } else {
                    cnt
                }
            } else {
                cnt
            };
            if lim == 0 && cond.quantity.quantity() > 0 {
                assert(build_blocked_upto(s0, id, n as int)) by {
                    assert(folded_dep(s0, id, j as int) == cond);
                }
                return 0;
            }
            match cond.kind {
                RelationKind::Consumes => {
                    if lim < max_buy_count {
                        max_buy_count = lim;
                    }
                },
                RelationKind::ManufacturedBy => {
                    if cnt < max_build_count {
                        max_build_count = cnt;
                    }
                },
                _ => {},
            }
            folded.push(cond);
            assert(!build_blocked_upto(s0, id, j + 1)) by {
                if build_blocked_upto(s0, id, j + 1) {
                    let w = choose|w: int|
                        0 <= w < j + 1 && limit_count(s0, #[trigger] folded_dep(s0, id, w)) == 0
                            && amount_of(folded_dep(s0, id, w).quantity) > 0;
                    assert(w != j);
                    assert(build_blocked_upto(s0, id, j as int));
                }
            }
            j = j + 1;
        }
        let units = if max_buy_count < max_build_count {
            max_buy_count
        } else {
            max_build_count
        };
        assert(units == build_count(s0, id));
        let mut k: usize = 0;
        while k < n
            invariant
                id < s0.products.len(),
                valid_state(s0),
                n == s0.products[id as int].dependencies.len(),
                product_valid(s0, s0.products[id as int]),
                !build_blocked(s0, id),
                units == build_count(s0, id),
                k <= n,
                folded@.len() == n,
                forall|i: int| 0 <= i < n ==> #[trigger] folded@[i] == folded_dep(s0, id, i),
                self@ == consume_upto(s0, s0, id, units, k as nat),
                same_catalog(s0, self@),
                self@.perks == s0.perks,
                self.wf(),
                forall|i: int|
                    k <= i < n && (#[trigger] folded_dep(s0, id, i)).kind == RelationKind::Consumes
                        ==> resource_amount(self@, folded_dep(s0, id, i).quantity)
                            == resource_amount(s0, folded_dep(s0, id, i).quantity),
            decreases n - k,
        {
            let rel = folded[k];
            if rel.kind == RelationKind::Consumes {
                proof {
                    lemma_consume_step(s0, self@, id, units, k as int);
                }
                let have = self.resource_of(&rel.quantity);
                let amount = rel.quantity.quantity();
                let cost = units * amount;
                let ghost prev = self@;
                self.set_resource(&rel.quantity, have - cost);
                proof {
                    lemma_consume_rest(s0, prev, id, (have - cost) as u64, k as int);
                }
            }
            k = k + 1;
        }
        assert(self@.products[id as int].perks == s0.products[id as int].perks);
        self.apply_product_perks(units, id)
    }
}

impl State {
    fn activate_one_product(&mut self, x: ProductId)
        requires
            x < old(self)@.products.len(),
        ensures
            final(self)@ == with_product_active(old(self)@, x as int),
    {
        self.products[x].activate();
        assert(self@.products =~= with_product_active(old(self)@, x as int).products);
    }

    fn activate_material(&mut self, m: usize)
        requires
            m < old(self)@.materials.len(),
        ensures
            final(self)@ == with_material_active(old(self)@, m as int),
    {
        self.materials[m].activate();
        assert(self@.materials =~= with_material_active(old(self)@, m as int).materials);
    }

    fn dependency_count(&self, id: ProductId) -> (r: usize)
        requires
            id < self@.products.len(),
        ensures
            r == self@.products[id as int].dependencies.len(),
    {
        self.products[id].dependencies().len()
    }

    /// The `j`-th dependency of product `id`.
    fn dependency(&self, id: ProductId, j: usize) -> (r: Relation)
        requires
            id < self@.products.len(),
            j < self@.products[id as int].dependencies.len(),
        ensures
            r == self@.products[id as int].dependencies[j as int],
    {
        self.products[id].dependencies()[j]
    }

    /// Activates product `id`, every product it depends on (directly or through other
    /// products) and every material those products depend on; see `activation`. Each
    /// product is visited once, so a catalog whose dependencies form a cycle is handled too.
    pub fn activate_product(&mut self, id: ProductId)
        requires
            old(self).wf(),
            id < old(self)@.products.len(),
        ensures
            final(self)@ == activation(old(self)@, id),
            final(self).wf(),
            same_catalog(old(self)@, final(self)@),
    {
        let ghost s0 = self@;
        let n = self.products.len();
        let mut visited: Vec<bool> = Vec::new();
        let mut i: usize = 0;
        while i < n
            invariant
                i <= n,
                visited@.len() == i,
                forall|k: int| 0 <= k < i ==> !(#[trigger] visited@[k]),
            decreases n - i,
        {
            visited.push(false);
            i = i + 1;
        }
        visited.set(id, true);
        let mut stack: Vec<usize> = Vec::new();
        stack.push(id);
        let ghost mut done: Set<int> = Set::empty();
        proof {
            assert(stack@[0] == id);
            assert forall|i: int| 0 <= i < n implies (#[trigger] visited@[i] <==> (done.contains(i)
                || stack@.contains(i as usize))) by {
                if stack@.contains(i as usize) {
                    assert(i == id);
                }
                if i == id {
                    assert(stack@[0] == i as usize);
                }
            }
            lemma_reaches_self(s0.products, id as int);
            assert(activated_by(s0, done).products =~= s0.products);
            assert(activated_by(s0, done).materials =~= s0.materials);
        }
        while stack.len() > 0
            invariant
                valid_state(s0),
                n == s0.products.len(),
                id < n,
                visited@.len() == n,
                forall|k: int| 0 <= k < stack@.len() ==> (#[trigger] stack@[k]) < n,
                forall|a: int, b: int| 0 <= a < b < stack@.len() ==> (#[trigger] stack@[a]) != (#[trigger] stack@[b]),
                forall|i: int| 0 <= i < n ==> (#[trigger] visited@[i] <==> (done.contains(i) || stack@.contains(i as usize))),
                forall|i: int| #[trigger] done.contains(i) ==> 0 <= i < n && !stack@.contains(i as usize),
                done.finite(),
                visited@[id as int],
                forall|i: int| 0 <= i < n && #[trigger] visited@[i] ==> reaches(s0.products, id as int, i),
                forall|i: int, q: int|
                    done.contains(i) && 0 <= q < n && #[trigger] depends_on_product(s0.products[i], q) ==> visited@[q],
                self@ == activated_by(s0, done),
            decreases n - done.len(),
        {
            let ghost stack0 = stack@;
            let x = stack.pop().unwrap();
            proof {
                assert(stack0.last() == x);
                assert(stack0[stack0.len() - 1] < n);
                if stack@.contains(x) {
                    let k = choose|k: int| 0 <= k < stack@.len() && stack@[k] == x;
                    assert(stack0[k] == stack0[stack0.len() - 1]);
                }
                assert(stack0.contains(x));
                assert(stack@ =~= stack0.drop_last());
                assert forall|i: int| 0 <= i < n implies (#[trigger] visited@[i] <==> (done.contains(i)
                    || stack@.contains(i as usize) || i == x)) by {
                    if stack0.contains(i as usize) && i != x {
                        let k = choose|k: int| 0 <= k < stack0.len() && stack0[k] == i as usize;
                        assert(k != stack0.len() - 1);
                        assert(stack@[k] == i as usize);
                    }
                    if stack@.contains(i as usize) {
                        let k = choose|k: int| 0 <= k < stack@.len() && stack@[k] == i as usize;
                        assert(stack0[k] == i as usize);
                    }
                }
            }
            self.activate_one_product(x);
            proof {
                lemma_expanding_start(s0, done, x as int);
            }
            let deps_len = self.dependency_count(x);
            let mut j: usize = 0;
            while j < deps_len
                invariant
                    valid_state(s0),
                    n == s0.products.len(),
                    id < n,
                    x < n,
                    !done.contains(x as int),
                    deps_len == s0.products[x as int].dependencies.len(),
                    j <= deps_len,
                    visited@.len() == n,
                    visited@[x as int],
                    forall|k: int| 0 <= k < stack@.len() ==> (#[trigger] stack@[k]) < n,
                    forall|a: int, b: int| 0 <= a < b < stack@.len() ==> (#[trigger] stack@[a]) != (#[trigger] stack@[b]),
                    !stack@.contains(x),
                    forall|i: int|
                        0 <= i < n ==> (#[trigger] visited@[i] <==> (done.contains(i) || stack@.contains(i as usize)
                            || i == x)),
                    forall|i: int| #[trigger] done.contains(i) ==> 0 <= i < n && !stack@.contains(i as usize),
                    done.finite(),
                    visited@[id as int],
                    forall|i: int| 0 <= i < n && #[trigger] visited@[i] ==> reaches(s0.products, id as int, i),
                    forall|i: int, q: int|
                        done.contains(i) && 0 <= q < n && #[trigger] depends_on_product(s0.products[i], q) ==> visited@[q],
                    forall|k: int, q: int|
                        0 <= k < j && 0 <= q < n && #[trigger] refers_to_product(
                            s0.products[x as int].dependencies[k].quantity,
                            q,
                        ) ==> visited@[q],
                    self@ == expanding(s0, done, x as int, j as int),
                decreases deps_len - j,
            {
                let dep = self.dependency(x, j);
                proof {
                    assert(product_valid(s0, s0.products[x as int]));
                    assert(quantity_valid(s0, dep.quantity));
                }
                match dep.quantity {
                    Quantity::Material(m, _) => {
                        self.activate_material(m);
                        proof {
                            lemma_expanding_material(s0, done, x as int, j as int, m as int);
                        }
                    },
                    Quantity::Product(q, _, _) => {
                        if !visited[q] {
                            proof {
                                assert(depends_on_product(s0.products[x as int], q as int)) by {
                                    assert(refers_to_product(s0.products[x as int].dependencies[j as int].quantity, q as int));
                                }
                                lemma_reaches_step(s0.products, id as int, x as int, q as int);
                            }
                            let ghost stack1 = stack@;
                            visited.set(q, true);
                            stack.push(q);
                            proof {
                                assert(stack@ == stack1.push(q));
                                assert(stack@[stack1.len() as int] == q);
                                assert(!stack1.contains(q));
                                assert forall|a: int, b: int| 0 <= a < b < stack@.len() implies (#[trigger] stack@[a]) != (#[trigger] stack@[b]) by {
                                    if b == stack1.len() {
                                        assert(stack1[a] == stack@[a]);
                                    } else {
                                        assert(stack1[a] == stack@[a] && stack1[b] == stack@[b]);
                                    }
                                }
                                if stack@.contains(x) {
                                    let k = choose|k: int| 0 <= k < stack@.len() && stack@[k] == x;
                                    if k < stack1.len() {
                                        assert(stack1[k] == x);
                                    }
                                }
                                assert forall|i: int| 0 <= i < n implies (#[trigger] visited@[i] <==> (done.contains(i)
                                    || stack@.contains(i as usize) || i == x)) by {
                                    if stack1.contains(i as usize) {
                                        let k = choose|k: int| 0 <= k < stack1.len() && stack1[k] == i as usize;
                                        assert(stack@[k] == i as usize);
                                    }
                                    if stack@.contains(i as usize) && i != q {
                                        let k = choose|k: int| 0 <= k < stack@.len() && stack@[k] == i as usize;
                                        assert(stack1[k] == i as usize);
                                    }
                                }
                                assert forall|i: int| #[trigger] done.contains(i) implies 0 <= i < n && !stack@.contains(i as usize) by {
                                    if stack@.contains(i as usize) {
                                        let k = choose|k: int| 0 <= k < stack@.len() && stack@[k] == i as usize;
                                        if k < stack1.len() {
                                            assert(stack1[k] == i as usize);
                                        }
                                    }
                                }
                            }
                        }
                        proof {
                            lemma_expanding_other(s0, done, x as int, j as int);
                        }
                    },
                    Quantity::Money(_) => {
                        proof {
                            lemma_expanding_other(s0, done, x as int, j as int);
                        }
                    },
                }
                j = j + 1;
            }
            proof {
                let done1 = done.insert(x as int);
                lemma_expanding_end(s0, done, x as int);
                assert forall|i: int, q: int|
                    done1.contains(i) && 0 <= q < n && #[trigger] depends_on_product(s0.products[i], q) implies visited@[q] by {
                    if i == x {
                        let k = choose|k: int| 0 <= k < s0.products[i].dependencies.len() && refers_to_product(
                            #[trigger] s0.products[i].dependencies[k].quantity, q);
                        assert(refers_to_product(s0.products[x as int].dependencies[k].quantity, q));
                    }
                }
                vstd::set_lib::lemma_int_range(0, n as int);
                assert(done1.subset_of(vstd::set_lib::set_int_range(0, n as int)));
                vstd::set_lib::lemma_len_subset(done1, vstd::set_lib::set_int_range(0, n as int));
                done = done1;
            }
        }
        proof {
            let reach = Set::new(|i: int| reaches(s0.products, id as int, i));
            assert forall|i: int| #[trigger] reach.contains(i) implies done.contains(i) by {
                let path = choose|path: Seq<int>| #[trigger] crate::rules::is_dep_path(s0.products, path)
                    && path[0] == id as int && path.last() == i;
                assert forall|a: int, q: int|
                    done.contains(a) && 0 <= a < s0.products.len() && #[trigger] depends_on_product(s0.products[a], q)
                        implies done.contains(q) by {
                    lemma_dep_in_range(s0, a, q);
                }
                lemma_closed_holds_path(s0.products, done, path);
            }
            assert forall|i: int| done.contains(i) implies #[trigger] reach.contains(i) by {
                assert(visited@[i]);
            }
            assert(done =~= reach);
            lemma_activated_catalog(s0, done);
            lemma_same_catalog_valid(s0, self@);
        }
    }
}

impl State {
    fn add_stock(&mut self, id: ProductId, n: Count)
        requires
            id < old(self)@.products.len(),
        ensures
            final(self)@ == with_stock_added(old(self)@, id, n),
    {
        let c = self.products[id].count();
        self.products[id].set_count(c.saturating_add(n));
        assert(self@.products =~= with_stock_added(old(self)@, id, n).products);
    }

    /// Builds product `id` as far as the ledger allows, stocks what was built and
    /// activates the products it unlocks; see `construct`.
    pub fn construct_product(&mut self, id: ProductId)
        requires
            old(self).wf(),
            id < old(self)@.products.len(),
        ensures
            final(self)@ == construct(old(self)@, id),
            final(self).wf(),
            same_catalog(old(self)@, final(self)@),
    {
        let ghost s0 = self@;
        let count = self.build_product_count(id);
        if count == 0 {
            return;
        }
        self.add_stock(id, count);
        let ghost s2 = self@;
        proof {
            lemma_same_catalog_trans(s0, build_outcome(s0, id).0, s2);
            lemma_same_catalog_valid(s0, s2);
            assert(product_valid(s2, s2.products[id as int]));
        }
        let unlocks_len = self.products[id].unlocks().len();
        let mut queue: Vec<ProductId> = Vec::new();
        let mut k: usize = 0;
        while k < unlocks_len
            invariant
                self@ == s2,
                valid_state(s2),
                id < s2.products.len(),
                product_valid(s2, s2.products[id as int]),
                unlocks_len == s2.products[id as int].unlocks.len(),
                k <= unlocks_len,
                queue@ == unlock_queue(s2.products[id as int], k as nat),
                forall|i: int| 0 <= i < queue@.len() ==> #[trigger] queue@[i] < s2.products.len(),
            decreases unlocks_len - k,
        {
            assert(self@.products[id as int] == self.products@[id as int]@);
            let (unlock_id, threshold) = self.products[id].unlocks()[k];
            if self.products[id].count() > threshold {
                queue.push(unlock_id);
            }
            k = k + 1;
        }
        let mut i: usize = 0;
        while i < queue.len()
            invariant
                valid_state(s2),
                forall|j: int| 0 <= j < queue@.len() ==> #[trigger] queue@[j] < s2.products.len(),
                i <= queue@.len(),
                self@ == activate_all(s2, queue@.take(i as int)),
                self.wf(),
                same_catalog(s0, self@),
                same_catalog(s2, self@),
            decreases queue.len() - i,
        {
            let ghost before = self@;
            self.activate_product(queue[i]);
            proof {
                assert(queue@.take(i + 1).drop_last() =~= queue@.take(i as int));
                lemma_same_catalog_trans(s0, before, self@);
                lemma_same_catalog_trans(s2, before, self@);
            }
            i = i + 1;
        }
        assert(queue@.take(queue@.len() as int) =~= queue@);
    }

    /// Sells product `id`, given the outcome `draw` of its sale draw; see `sale`. A host
    /// draws with success probability `min(interest, 1) / 100`.
    pub fn sell_product(&mut self, id: ProductId, draw: bool)
        requires
            old(self).wf(),
            id < old(self)@.products.len(),
        ensures
            final(self)@ == sale(old(self)@, id, draw),
            final(self).wf(),
            same_catalog(old(self)@, final(self)@),
    {
        let ghost s0 = self@;
        let price = match self.products[id].price() {
            None => {
                return;
            },
            Some(p) => p,
        };
        let stock = self.products[id].count();
        if stock == 0 || !draw {
            return;
        }
        assert(product_valid(s0, s0.products[id as int]));
        let n = self.dependency_count(id);
        let mut multiplier: Option<Count> = None;
        let mut j: usize = 0;
        while j < n
            invariant
                self@ == s0,
                valid_state(s0),
                id < s0.products.len(),
                product_valid(s0, s0.products[id as int]),
                n == s0.products[id as int].dependencies.len(),
                j <= n,
                multiplier == sell_multiplier_upto(s0, id, j as nat),
            decreases n - j,
        {
            let dep = self.dependency(id, j);
            assert(quantity_valid(s0, s0.products[id as int].dependencies[j as int].quantity));
            if dep.kind == RelationKind::SoldBy {
                let cnt = self.quantity_present_count(&dep.quantity);
                if cnt != 0 {
                    multiplier = match multiplier {
                        Some(m) => if cnt < m {
                            Some(cnt)
                        } else {
                            Some(m)
                        },
                        None => Some(cnt),
                    };
                }
            }
            j = j + 1;
        }
        let mult = match multiplier {
            Some(m) => m,
            None => 1,
        };
        let sold = if mult < stock {
            mult
        } else {
            stock
        };
        self.products[id].sell(sold);
        self.money = self.money.saturating_add(saturating_mul(price, sold));
        proof {
            assert(self@.products =~= sale(s0, id, draw).products);
            assert(same_catalog(s0, self@));
            lemma_same_catalog_valid(s0, self@);
        }
    }

    fn buy_material_once(&mut self, id: ProductMaterialId)
        requires
            old(self).wf(),
            id < old(self)@.materials.len(),
        ensures
            final(self)@ == buy_one(old(self)@, id as int),
            final(self).wf(),
            same_catalog(old(self)@, final(self)@),
    {
        let ghost s0 = self@;
        let m = &self.materials[id];
        let price = m.price();
        if self.money >= price && m.bought() < u64::MAX && m.count() < u64::MAX {
            self.materials[id].buy();
            self.money = self.money - price;
            proof {
                assert(self@.materials =~= buy_one(s0, id as int).materials);
                lemma_same_catalog_valid(s0, self@);
            }
        }
    }

    /// Buys `cnt` units of material `id` one at a time; each unit is bought only when the
    /// money covers its price at that moment, and raises the price of the next.
    pub fn buy_material(&mut self, id: ProductMaterialId, cnt: u32)
        requires
            old(self).wf(),
            id < old(self)@.materials.len(),
        ensures
            final(self)@ == buy_times(old(self)@, id as int, cnt as nat),
            final(self).wf(),
            same_catalog(old(self)@, final(self)@),
    {
        let ghost s0 = self@;
        let mut i: u32 = 0;
        while i < cnt
            invariant
                i <= cnt,
                id < s0.materials.len(),
                self@ == buy_times(s0, id as int, i as nat),
                self.wf(),
                same_catalog(s0, self@),
            decreases cnt - i,
        {
            let ghost before = self@;
            self.buy_material_once(id);
            proof {
                lemma_same_catalog_trans(s0, before, self@);
            }
            i = i + 1;
        }
    }

    /// Pauses a running automation, or resumes a paused one.
    pub fn toggle_automation(&mut self, id: AutomationId)
        requires
            old(self).wf(),
            id < old(self)@.automations.len(),
        ensures
            final(self)@ == (StateView {
                automations: old(self)@.automations.update(
                    id as int,
                    crate::catalog::AutomationView {
                        paused: !old(self)@.automations[id as int].paused,
                        ..old(self)@.automations[id as int]
                    },
                ),
                ..old(self)@
            }),
            final(self).wf(),
            same_catalog(old(self)@, final(self)@),
    {
        let ghost s0 = self@;
        self.automations[id].toggle();
        proof {
            assert(self@.automations =~= s0.automations.update(
                id as int,
                crate::catalog::AutomationView { paused: !s0.automations[id as int].paused, ..s0.automations[id as int] },
            ));
            lemma_same_catalog_valid(s0, self@);
        }
    }

    fn change_price(&mut self, id: ProductId, delta: i128)
        requires
            old(self).wf(),
            id < old(self)@.products.len(),
            -0x1_0000_0000_0000_0000 <= delta <= 0x1_0000_0000_0000_0000,
        ensures
            final(self)@ == price_changed(old(self)@, id as int, delta as int),
            final(self).wf(),
            same_catalog(old(self)@, final(self)@),
    {
        let ghost s0 = self@;
        if let Some(price) = self.products[id].price() {
            let v: i128 = price as i128 + delta;
            let clamped: u64 = if v < 0 {
                0
            } else if v > u64::MAX as i128 {
                u64::MAX
            } else {
                v as u64
            };
            self.products[id].set_price(Some(clamped));
            proof {
                assert(self@.products =~= price_changed(s0, id as int, delta as int).products);
                lemma_same_catalog_valid(s0, self@);
            }
        }
    }

    /// Raises the price of product `id` by `delta` (lowers it for a negative `delta`),
    /// held at zero from below; a product without a price keeps none.
    pub fn inc_price(&mut self, id: ProductId, delta: PriceDelta)
        requires
            old(self).wf(),
            id < old(self)@.products.len(),
        ensures
            final(self)@ == price_changed(old(self)@, id as int, delta as int),
            final(self).wf(),
            same_catalog(old(self)@, final(self)@),
    {
        self.change_price(id, delta as i128);
    }

    /// Lowers the price of product `id` by `delta` (raises it for a negative `delta`),
    /// held at zero from below; a product without a price keeps none.
    pub fn dec_price(&mut self, id: ProductId, delta: PriceDelta)
        requires
            old(self).wf(),
            id < old(self)@.products.len(),
        ensures
            final(self)@ == price_changed(old(self)@, id as int, -delta),
            final(self).wf(),
            same_catalog(old(self)@, final(self)@),
    {
        self.change_price(id, -(delta as i128));
    }

    pub fn money(&self) -> (r: Price)
        ensures
            r == self@.money,
    {
        self.money
    }

    /// Whether the objective held at the end of the last step.
    pub fn win(&self) -> (r: bool)
        ensures
            r == self@.win,
    {
        self.win
    }

    pub fn objective(&self) -> (r: &Objective)
        ensures
            r@ == self@.objective,
    {
        &self.objective
    }

    pub fn materials(&self) -> (r: &Vec<ProductMaterial>)
        ensures
            r@.map_values(|m: ProductMaterial| m@) == self@.materials,
    {
        &self.materials
    }

    pub fn products(&self) -> (r: &Vec<Product>)
        ensures
            r@.map_values(|p: Product| p@) == self@.products,
    {
        &self.products
    }

    pub fn badges(&self) -> (r: &Vec<Badge>)
        ensures
            r@.map_values(|b: Badge| b@) == self@.badges,
    {
        &self.badges
    }

    pub fn perks(&self) -> (r: &Vec<Perk>)
        ensures
            r@.map_values(|p: Perk| p@) == self@.perks,
    {
        &self.perks
    }

    pub fn automations(&self) -> (r: &Vec<Automation>)
        ensures
            r@.map_values(|a: Automation| a@) == self@.automations,
    {
        &self.automations
    }
}

impl State {
    /// Copies `price`, and the same entries with product amounts measured by their stock.
    fn price_lists(price: &Vec<Quantity>) -> (r: (Vec<Quantity>, Vec<Quantity>))
        ensures
            r.0@ == price@,
            r.1@ == price@.map_values(|q: Quantity| as_stock_price(q)),
    {
        let mut owned: Vec<Quantity> = Vec::new();
        let mut checked: Vec<Quantity> = Vec::new();
        let mut i: usize = 0;
        while i < price.len()
            invariant
                i <= price@.len(),
                owned@ == price@.take(i as int),
                checked@ == price@.take(i as int).map_values(|q: Quantity| as_stock_price(q)),
            decreases price.len() - i,
        {
            let q = price[i];
            owned.push(q);
            let c = match q {
                Quantity::Product(p, cnt, _) => Quantity::Product(p, cnt, Some(ProductConditionKind::Count)),
                _ => q,
            };
            checked.push(c);
            proof {
                assert(price@.take(i + 1) =~= price@.take(i as int).push(q));
                assert(checked@ =~= price@.take(i + 1).map_values(|q: Quantity| as_stock_price(q)));
            }
            i = i + 1;
        }
        assert(price@.take(price@.len() as int) =~= price@);
        (owned, checked)
    }

    /// Takes every entry of `price` from the ledger, when the ledger covers them all.
    fn pay(&mut self, price: &Vec<Quantity>)
        requires
            old(self).wf(),
            quantities_valid(old(self)@, price@),
            distinct_resources(price@),
            price_covered(old(self)@, price@),
        ensures
            final(self)@ == pay_upto(old(self)@, price@, price@.len()),
            final(self).wf(),
            same_catalog(old(self)@, final(self)@),
            final(self)@.perks == old(self)@.perks,
            final(self)@.automations == old(self)@.automations,
    {
        let ghost s0 = self@;
        let mut k: usize = 0;
        while k < price.len()
            invariant
                valid_state(s0),
                quantities_valid(s0, price@),
                distinct_resources(price@),
                price_covered(s0, price@),
                k <= price@.len(),
                self@ == pay_upto(s0, price@, k as nat),
                same_catalog(s0, self@),
                self@.perks == s0.perks,
                self@.automations == s0.automations,
                self.wf(),
                forall|i: int| k <= i < price@.len() ==> resource_amount(self@, #[trigger] price@[i]) == resource_amount(s0, price@[i]),
            decreases price.len() - k,
        {
            let q = price[k];
            proof {
                assert(quantity_valid(s0, price@[k as int]));
                let checked = price@.map_values(|q: Quantity| as_stock_price(q));
                assert(condition_holds(s0, checked[k as int]));
            }
            let have = self.resource_of(&q);
            let amount = q.quantity();
            let ghost prev = self@;
            self.set_resource(&q, have - amount);
            proof {
                lemma_pay_rest(s0, prev, price@, k as int, (have - amount) as u64);
                lemma_same_catalog_valid(s0, self@);
            }
            k = k + 1;
        }
    }

    /// Buys perk `id`: when the ledger covers its whole price (product entries by their
    /// stock), pays it and activates the perk; otherwise does nothing.
    pub fn buy_perk(&mut self, id: PerkId)
        requires
            old(self).wf(),
            id < old(self)@.perks.len(),
            old(self)@.perks[id as int].unlocked,
            !old(self)@.perks[id as int].active,
        ensures
            final(self)@ == perk_bought(old(self)@, id as int),
            final(self).wf(),
            same_catalog(old(self)@, final(self)@),
    {
        let ghost s0 = self@;
        assert(self@.perks[id as int] == self.perks@[id as int]@);
        let (price, checked) = State::price_lists(self.perks[id].price());
        proof {
            assert(quantities_valid(s0, s0.perks[id as int].buy_price) && distinct_resources(s0.perks[id as int].buy_price)) by {
                assert(quantities_valid(s0, s0.perks[id as int].condition));
            }
            assert forall|i: int| 0 <= i < checked@.len() implies quantity_valid(s0, #[trigger] checked@[i]) by {
                assert(quantity_valid(s0, price@[i]));
            }
        }
        if !self.check_conditions(checked.as_slice()) {
            return;
        }
        self.pay(&price);
        self.perks[id].activate();
        proof {
            assert(self@.perks =~= perk_bought(s0, id as int).perks);
            lemma_same_catalog_valid(s0, self@);
        }
    }

    /// Buys automation `id`: when the ledger covers its whole price (product entries by
    /// their stock), pays it and activates the automation; otherwise does nothing.
    pub fn buy_automation(&mut self, id: AutomationId)
        requires
            old(self).wf(),
            id < old(self)@.automations.len(),
            old(self)@.automations[id as int].unlocked,
            !old(self)@.automations[id as int].active,
        ensures
            final(self)@ == automation_bought(old(self)@, id as int),
            final(self).wf(),
            same_catalog(old(self)@, final(self)@),
    {
        let ghost s0 = self@;
        assert(self@.automations[id as int] == self.automations@[id as int]@);
        assert(automation_valid(s0, s0.automations[id as int]));
        let (price, checked) = State::price_lists(self.automations[id].price());
        proof {
            assert(quantities_valid(s0, s0.automations[id as int].buy_price) && distinct_resources(s0.automations[id as int].buy_price)) by {
                assert(automation_valid(s0, s0.automations[id as int]));
            }
            assert forall|i: int| 0 <= i < checked@.len() implies quantity_valid(s0, #[trigger] checked@[i]) by {
                assert(quantity_valid(s0, price@[i]));
            }
        }
        if !self.check_conditions(checked.as_slice()) {
            return;
        }
        self.pay(&price);
        self.automations[id].activate();
        proof {
            assert(self@.automations =~= automation_bought(s0, id as int).automations);
            lemma_same_catalog_valid(s0, self@);
        }
    }
}

impl State {
    fn unlock_badge(&mut self, i: usize)
        requires
            i < old(self)@.badges.len(),
        ensures
            final(self)@ == (StateView {
                badges: old(self)@.badges.update(i as int, BadgeView { unlocked: true, ..old(self)@.badges[i as int] }),
                ..old(self)@
            }),
    {
        self.badges[i].unlock();
        assert(self@.badges =~= old(self)@.badges.update(i as int, BadgeView { unlocked: true, ..old(self)@.badges[i as int] }));
    }

    fn unlock_perk(&mut self, i: usize)
        requires
            i < old(self)@.perks.len(),
        ensures
            final(self)@ == (StateView {
                perks: old(self)@.perks.update(i as int, PerkView { unlocked: true, ..old(self)@.perks[i as int] }),
                ..old(self)@
            }),
    {
        self.perks[i].unlock();
        assert(self@.perks =~= old(self)@.perks.update(i as int, PerkView { unlocked: true, ..old(self)@.perks[i as int] }));
    }

    fn unlock_automation(&mut self, i: usize)
        requires
            i < old(self)@.automations.len(),
        ensures
            final(self)@ == (StateView {
                automations: old(self)@.automations.update(
                    i as int,
                    AutomationView { unlocked: true, ..old(self)@.automations[i as int] },
                ),
                ..old(self)@
            }),
    {
        self.automations[i].unlock();
        assert(self@.automations =~= old(self)@.automations.update(
            i as int,
            AutomationView { unlocked: true, ..old(self)@.automations[i as int] },
        ));
    }

    fn run_automation(&mut self, j: usize, delta: Nanos) -> (fired: bool)
        requires
            j < old(self)@.automations.len(),
            match old(self)@.automations[j as int].timer {
                Some(t) => t.period > 0,
                None => true,
            },
        ensures
            fired == fires(old(self)@.automations[j as int], delta),
            final(self)@ == (StateView {
                automations: old(self)@.automations.update(j as int, ticked(old(self)@.automations[j as int], delta)),
                ..old(self)@
            }),
    {
        let fired = self.automations[j].run(delta);
        assert(self@.automations =~= old(self)@.automations.update(j as int, ticked(old(self)@.automations[j as int], delta)));
        fired
    }

    fn unlock_badges(&mut self)
        requires
            old(self).wf(),
        ensures
            final(self)@ == (StateView { badges: unlock_all(old(self)@).badges, ..old(self)@ }),
    {
        let ghost s0 = self@;
        let n = self.badges.len();
        let mut i: usize = 0;
        assert(Seq::new(n as nat, |k: int| if k < 0 { unlock_all(s0).badges[k] } else { s0.badges[k] }) =~= s0.badges);
        while i < n
            invariant
                valid_state(s0),
                n == s0.badges.len(),
                self.badges@.len() == n,
                i <= n,
                self@ == (StateView {
                    badges: Seq::new(
                        n as nat,
                        |k: int|
                            if k < i {
                                unlock_all(s0).badges[k]
                            } else {
                                s0.badges[k]
                            },
                    ),
                    ..s0
                }),
            decreases n - i,
        {
            assert(self@.badges[i as int] == self.badges@[i as int]@);
            assert(quantities_valid(s0, s0.badges[i as int].condition));
            let ghost before = self@;
            proof {
                lemma_conditions_same_ledger(s0, before, s0.badges[i as int].condition);
            }
            if self.check_conditions(self.badges[i].condition().as_slice()) {
                self.unlock_badge(i);
            }
            proof {
                assert(self@.badges =~= Seq::new(
                    n as nat,
                    |k: int|
                        if k < i + 1 {
                            unlock_all(s0).badges[k]
                        } else {
                            s0.badges[k]
                        },
                ));
            }
            i = i + 1;
        }
        assert(self@.badges =~= unlock_all(s0).badges);
    }

    fn unlock_perks(&mut self)
        requires
            old(self).wf(),
        ensures
            final(self)@ == (StateView { perks: unlock_all(old(self)@).perks, ..old(self)@ }),
    {
        let ghost s0 = self@;
        let n = self.perks.len();
        let mut i: usize = 0;
        assert(Seq::new(n as nat, |k: int| if k < 0 { unlock_all(s0).perks[k] } else { s0.perks[k] }) =~= s0.perks);
        while i < n
            invariant
                valid_state(s0),
                n == s0.perks.len(),
                self.perks@.len() == n,
                i <= n,
                self@ == (StateView {
                    perks: Seq::new(
                        n as nat,
                        |k: int|
                            if k < i {
                                unlock_all(s0).perks[k]
                            } else {
                                s0.perks[k]
                            },
                    ),
                    ..s0
                }),
            decreases n - i,
        {
            assert(self@.perks[i as int] == self.perks@[i as int]@);
            assert(quantities_valid(s0, s0.perks[i as int].condition));
            let ghost before = self@;
            proof {
                lemma_conditions_same_ledger(s0, before, s0.perks[i as int].condition);
            }
            if self.check_conditions(self.perks[i].condition().as_slice()) {
                self.unlock_perk(i);
            }
            proof {
                assert(self@.perks =~= Seq::new(
                    n as nat,
                    |k: int|
                        if k < i + 1 {
                            unlock_all(s0).perks[k]
                        } else {
                            s0.perks[k]
                        },
                ));
            }
            i = i + 1;
        }
        assert(self@.perks =~= unlock_all(s0).perks);
    }

    fn unlock_automations(&mut self)
        requires
            old(self).wf(),
        ensures
            final(self)@ == (StateView { automations: unlock_all(old(self)@).automations, ..old(self)@ }),
    {
        let ghost s0 = self@;
        let n = self.automations.len();
        let mut i: usize = 0;
        assert(Seq::new(n as nat, |k: int| if k < 0 { unlock_all(s0).automations[k] } else { s0.automations[k] }) =~= s0.automations);
        while i < n
            invariant
                valid_state(s0),
                n == s0.automations.len(),
                self.automations@.len() == n,
                i <= n,
                self@ == (StateView {
                    automations: Seq::new(
                        n as nat,
                        |k: int|
                            if k < i {
                                unlock_all(s0).automations[k]
                            } else {
                                s0.automations[k]
                            },
                    ),
                    ..s0
                }),
            decreases n - i,
        {
            assert(self@.automations[i as int] == self.automations@[i as int]@);
            assert(automation_valid(s0, s0.automations[i as int]));
            let ghost before = self@;
            proof {
                lemma_conditions_same_ledger(s0, before, s0.automations[i as int].condition);
            }
            if self.check_conditions(self.automations[i].condition().as_slice()) {
                self.unlock_automation(i);
            }
            proof {
                assert(self@.automations =~= Seq::new(
                    n as nat,
                    |k: int|
                        if k < i + 1 {
                            unlock_all(s0).automations[k]
                        } else {
                            s0.automations[k]
                        },
                ));
            }
            i = i + 1;
        }
        assert(self@.automations =~= unlock_all(s0).automations);
    }

    /// One step of the game after `delta` nanoseconds; see `step`. `draws[i]` is the
    /// outcome of product `i`'s sale draw (a missing entry is a failed draw).
    pub fn update(&mut self, delta: Nanos, draws: &Vec<bool>)
        requires
            old(self).wf(),
        ensures
            final(self)@ == step(old(self)@, delta, draws@),
            final(self).wf(),
            same_catalog(old(self)@, final(self)@),
    {
        let ghost s0 = self@;
        let n = self.products.len();
        let mut i: usize = 0;
        while i < n
            invariant
                n == s0.products.len(),
                i <= n,
                self@ == sell_upto(s0, draws@, i as nat),
                self.wf(),
                same_catalog(s0, self@),
            decreases n - i,
        {
            assert(self@.products[i as int] == self.products@[i as int]@);
            if self.products[i].active() {
                let draw = i < draws.len() && draws[i];
                let ghost before = self@;
                self.sell_product(i, draw);
                proof {
                    lemma_same_catalog_trans(s0, before, self@);
                }
            }
            i = i + 1;
        }
        let ghost s1 = self@;
        let m = self.automations.len();
        let mut builds: Vec<ProductId> = Vec::new();
        let mut buys: Vec<ProductMaterialId> = Vec::new();
        let mut j: usize = 0;
        proof {
            assert(tick_upto(s1, delta, 0).automations =~= s1.automations);
        }
        while j < m
            invariant
                valid_state(s1),
                same_catalog(s0, s1),
                m == s1.automations.len(),
                self.automations@.len() == m,
                j <= m,
                self@ == tick_upto(s1, delta, j as int),
                builds@ == queue_upto(s1.automations, delta, j as nat, true),
                buys@ == queue_upto(s1.automations, delta, j as nat, false),
            decreases m - j,
        {
            assert(self@.automations[j as int] == self.automations@[j as int]@);
            assert(automation_valid(s1, s1.automations[j as int]));
            let kind = self.automations[j].kind();
            let fired = self.run_automation(j, delta);
            if fired {
                match kind {
                    AutomationKind::Buy(id) => buys.push(id),
                    AutomationKind::Build(id) => builds.push(id),
                }
            }
            proof {
                assert(self@.automations =~= tick_upto(s1, delta, j + 1).automations);
            }
            j = j + 1;
        }
        let ghost s2 = self@;
        proof {
            assert(same_catalog(s1, s2));
            lemma_same_catalog_valid(s1, s2);
            lemma_same_catalog_trans(s0, s1, s2);
            lemma_queue_valid(s1, delta, m as nat, true);
            lemma_queue_valid(s1, delta, m as nat, false);
        }
        let mut k: usize = 0;
        while k < builds.len()
            invariant
                valid_state(s1),
                same_catalog(s1, s2),
                forall|q: int| 0 <= q < builds@.len() ==> #[trigger] builds@[q] < s1.products.len(),
                k <= builds@.len(),
                self@ == construct_all(s2, builds@.take(k as int)),
                self.wf(),
                same_catalog(s0, self@),
                same_catalog(s2, self@),
            decreases builds.len() - k,
        {
            let ghost before = self@;
            self.construct_product(builds[k]);
            proof {
                assert(builds@.take(k + 1).drop_last() =~= builds@.take(k as int));
                lemma_same_catalog_trans(s0, before, self@);
                lemma_same_catalog_trans(s2, before, self@);
            }
            k = k + 1;
        }
        assert(builds@.take(builds@.len() as int) =~= builds@);
        let ghost s3 = self@;
        let mut k: usize = 0;
        while k < buys.len()
            invariant
                valid_state(s1),
                same_catalog(s1, s2),
                same_catalog(s2, s3),
                forall|q: int| 0 <= q < buys@.len() ==> #[trigger] buys@[q] < s1.materials.len(),
                k <= buys@.len(),
                self@ == buy_all(s3, buys@.take(k as int)),
                self.wf(),
                same_catalog(s0, self@),
                same_catalog(s3, self@),
            decreases buys.len() - k,
        {
            let ghost before = self@;
            self.buy_material(buys[k], 1);
            proof {
                assert(buys@.take(k + 1).drop_last() =~= buys@.take(k as int));
                lemma_same_catalog_trans(s0, before, self@);
                lemma_same_catalog_trans(s3, before, self@);
            }
            k = k + 1;
        }
        assert(buys@.take(buys@.len() as int) =~= buys@);
        let ghost s4 = self@;
        let won = self.check_conditions(self.objective.win_condition());
        self.win = won;
        if won {
            return;
        }
        self.unlock_badges();
        self.unlock_perks();
        self.unlock_automations();
        proof {
            let w = StateView { win: false, ..s4 };
            lemma_conditions_same_ledger(w, self@, w.objective);
            assert(self@.badges =~= unlock_all(w).badges);
            assert(self@.perks =~= unlock_all(w).perks);
            assert(self@.automations =~= unlock_all(w).automations);
            assert(same_catalog(s4, self@));
            lemma_same_catalog_trans(s0, s4, self@);
            lemma_same_catalog_valid(s0, self@);
        }
    }
}

} // verus!
