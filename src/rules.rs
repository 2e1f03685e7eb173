use vstd::prelude::*;

use crate::catalog::{
    AutomationKind, AutomationView, BadgeView, PerkView, ProductMaterialView, ProductView, fires,
    material_price, ticked,
};
use crate::quantity::{
    ProductConditionKind, Quantity, Relation, RelationKind, amount_of, cap_u64, combine,
    same_resource, sat_add, sat_mul,
};
use crate::types::{Nanos, PerkId, ProductId};

verus! {

/// What the whole game state holds.
pub struct StateView {
    pub money: u64,
    pub objective: Seq<Quantity>,
    pub materials: Seq<ProductMaterialView>,
    pub products: Seq<ProductView>,
    pub badges: Seq<BadgeView>,
    pub perks: Seq<PerkView>,
    pub automations: Seq<AutomationView>,
    pub win: bool,
}

/// A quantity names a material or product that the catalog holds.
pub open spec fn quantity_valid(s: StateView, q: Quantity) -> bool {
    match q {
        Quantity::Money(_) => true,
        Quantity::Material(i, _) => i < s.materials.len(),
        Quantity::Product(i, _, _) => i < s.products.len(),
    }
}

pub open spec fn quantities_valid(s: StateView, qs: Seq<Quantity>) -> bool {
    forall|i: int| 0 <= i < qs.len() ==> quantity_valid(s, #[trigger] qs[i])
}

/// A product's references are in range, and no two of its `Consumes` relations draw on
/// the same ledger entry.
pub open spec fn product_valid(s: StateView, p: ProductView) -> bool {
    &&& forall|j: int| 0 <= j < p.dependencies.len() ==> quantity_valid(s, #[trigger] p.dependencies[j].quantity)
    &&& forall|j: int| 0 <= j < p.perks.len() ==> #[trigger] p.perks[j] < s.perks.len()
    &&& forall|j: int| 0 <= j < p.unlocks.len() ==> #[trigger] p.unlocks[j].0 < s.products.len()
    &&& forall|j: int, k: int|
        0 <= j < k < p.dependencies.len() && #[trigger] p.dependencies[j].kind == RelationKind::Consumes
            && #[trigger] p.dependencies[k].kind == RelationKind::Consumes
            ==> !same_resource(p.dependencies[j].quantity, p.dependencies[k].quantity)
}

/// No two entries of `qs` draw on the same ledger entry.
pub open spec fn distinct_resources(qs: Seq<Quantity>) -> bool {
    forall|j: int, k: int| 0 <= j < k < qs.len() ==> !same_resource(#[trigger] qs[j], #[trigger] qs[k])
}

pub open spec fn automation_valid(s: StateView, a: AutomationView) -> bool {
    &&& distinct_resources(a.buy_price)
    &&& match a.kind {
        AutomationKind::Buy(m) => m < s.materials.len(),
        AutomationKind::Build(p) => p < s.products.len(),
    }
    &&& quantities_valid(s, a.condition)
    &&& quantities_valid(s, a.buy_price)
    &&& match a.timer {
        Some(t) => t.period > 0,
        None => true,
    }
}

/// Every identifier in the catalog is in range, every timer has a non-zero period, no
/// product consumes one ledger entry twice and no price names one ledger entry twice.
///
/// The last two keep payment exact: a build or a purchase checks each entry of a recipe
/// or price against the ledger on its own and then takes them all, so two entries on the
/// same money, material or product could each pass the check and together take more than
/// the ledger holds. A catalog states such a demand as one entry with the summed amount.
pub open spec fn valid_state(s: StateView) -> bool {
    &&& quantities_valid(s, s.objective)
    &&& forall|i: int| 0 <= i < s.products.len() ==> product_valid(s, #[trigger] s.products[i])
    &&& forall|i: int| 0 <= i < s.perks.len() ==> quantities_valid(s, #[trigger] s.perks[i].condition)
        && quantities_valid(s, s.perks[i].buy_price) && distinct_resources(s.perks[i].buy_price)
    &&& forall|i: int| 0 <= i < s.badges.len() ==> quantities_valid(s, #[trigger] s.badges[i].condition)
    &&& forall|i: int| 0 <= i < s.automations.len() ==> automation_valid(s, #[trigger] s.automations[i])
}

/// `t` has the catalog of `s`: only ledger amounts, flags, prices and timer progress differ.
pub open spec fn same_catalog(s: StateView, t: StateView) -> bool {
    &&& t.objective == s.objective
    &&& t.materials.len() == s.materials.len()
    &&& t.products.len() == s.products.len()
    &&& forall|i: int| 0 <= i < s.products.len() ==> {
        &&& (#[trigger] t.products[i]).dependencies == s.products[i].dependencies
        &&& t.products[i].perks == s.products[i].perks
        &&& t.products[i].unlocks == s.products[i].unlocks
    }
    &&& t.perks.len() == s.perks.len()
    &&& forall|i: int| 0 <= i < s.perks.len() ==> {
        &&& (#[trigger] t.perks[i]).condition == s.perks[i].condition
        &&& t.perks[i].buy_price == s.perks[i].buy_price
        &&& t.perks[i].effect == s.perks[i].effect
    }
    &&& t.badges.len() == s.badges.len()
    &&& forall|i: int| 0 <= i < s.badges.len() ==> (#[trigger] t.badges[i]).condition == s.badges[i].condition
    &&& t.automations.len() == s.automations.len()
    &&& forall|i: int| 0 <= i < s.automations.len() ==> {
        &&& (#[trigger] t.automations[i]).kind == s.automations[i].kind
        &&& t.automations[i].condition == s.automations[i].condition
        &&& t.automations[i].buy_price == s.automations[i].buy_price
        &&& match (t.automations[i].timer, s.automations[i].timer) {
            (Some(a), Some(b)) => a.period == b.period,
            (None, None) => true,
            _ => false,
        }
    }
}

pub proof fn lemma_same_catalog_valid(s: StateView, t: StateView)
    requires
        valid_state(s),
        same_catalog(s, t),
    ensures
        valid_state(t),
{
    assert forall|i: int| 0 <= i < t.products.len() implies product_valid(t, #[trigger] t.products[i]) by {
        assert(product_valid(s, s.products[i]));
    }
    assert forall|i: int| 0 <= i < t.perks.len() implies quantities_valid(t, #[trigger] t.perks[i].condition)
        && quantities_valid(t, t.perks[i].buy_price) by {
        assert(quantities_valid(s, s.perks[i].condition));
    }
    assert forall|i: int| 0 <= i < t.badges.len() implies quantities_valid(t, #[trigger] t.badges[i].condition) by {
        assert(quantities_valid(s, s.badges[i].condition));
    }
    assert forall|i: int| 0 <= i < t.automations.len() implies automation_valid(t, #[trigger] t.automations[i]) by {
        assert(automation_valid(s, s.automations[i]));
    }
}

/// How many times a quantity fits in what the ledger holds; a product quantity is
/// measured against the counter it names (see `product_counter`), and a zero amount fits
/// without bound (`u64::MAX`).
pub open spec fn present_count(s: StateView, q: Quantity) -> u64 {
    match q {
        Quantity::Money(a) => if a == 0 {
            u64::MAX
        } else {
            (s.money / a) as u64
        },
        Quantity::Material(i, c) => if c == 0 {
            u64::MAX
        } else {
            (s.materials[i as int].count / c) as u64
        },
        Quantity::Product(i, c, k) => if c == 0 {
            u64::MAX
        } else {
            cap_u64(product_counter(s.products[i as int], k) / (c as int))
        },
    }
}

/// The counter of a product that a product quantity is measured against; units ever
/// produced when the quantity names none.
pub open spec fn product_counter(p: ProductView, kind: Option<ProductConditionKind>) -> int {
    match kind {
        Some(ProductConditionKind::Count) => p.count as int,
        Some(ProductConditionKind::Sold) => p.sold as int,
        _ => p.count + p.sold,
    }
}

/// The ledger holds at least the quantity.
pub open spec fn condition_holds(s: StateView, q: Quantity) -> bool {
    match q {
        Quantity::Money(a) => s.money >= a,
        Quantity::Material(i, c) => s.materials[i as int].count >= c,
        Quantity::Product(i, c, k) => product_counter(s.products[i as int], k) >= c,
    }
}

pub open spec fn conditions_hold(s: StateView, qs: Seq<Quantity>) -> bool {
    forall|i: int| 0 <= i < qs.len() ==> condition_holds(s, #[trigger] qs[i])
}

/// `q` with the effects of the active perks among `ids` folded in, in the order of `ids`.
pub open spec fn fold_perks(perks: Seq<PerkView>, ids: Seq<PerkId>, q: Quantity) -> Quantity
    decreases ids.len(),
{
    if ids.len() == 0 {
        q
    } else {
        let prev = fold_perks(perks, ids.drop_last(), q);
        let p = perks[ids.last() as int];
        if p.active {
            combine(prev, p.effect.0, p.effect.1)
        } else {
            prev
        }
    }
}

/// A quantity of product `id` with the product's active perks folded in.
pub open spec fn perked(s: StateView, id: ProductId, q: Quantity) -> Quantity {
    fold_perks(s.perks, s.products[id as int].perks, q)
}

/// The number of units that building `base` units of product `id` yields once the
/// product's active perks are folded into it.
pub open spec fn perked_output(s: StateView, id: ProductId, base: u64) -> u64 {
    amount_of(perked(s, id, Quantity::Product(id, base, None)))
}

/// Folding a perk keeps the ledger entry that a quantity draws on.
pub proof fn lemma_fold_keeps_resource(perks: Seq<PerkView>, ids: Seq<PerkId>, q: Quantity, r: Quantity)
    ensures
        same_resource(fold_perks(perks, ids, q), r) == same_resource(q, r),
        same_resource(r, fold_perks(perks, ids, q)) == same_resource(r, q),
        fold_perks(perks, ids, q) is Money == q is Money,
        fold_perks(perks, ids, q) is Material == q is Material,
        fold_perks(perks, ids, q) is Product == q is Product,
    decreases ids.len(),
{
    if ids.len() > 0 {
        lemma_fold_keeps_resource(perks, ids.drop_last(), q, r);
    }
}

/// The `j`-th dependency of product `id`, with the product's active perks folded in.
pub open spec fn folded_dep(s: StateView, id: ProductId, j: int) -> Relation {
    let d = s.products[id as int].dependencies[j];
    Relation { kind: d.kind, quantity: perked(s, id, d.quantity) }
}

/// Among the first `n` folded dependencies of product `id`, one asks for a positive
/// amount that does not fit even once (see `limit_count`: a consumed dependency must
/// also fit in what the ledger holds of its entry): nothing can be built.
pub open spec fn build_blocked_upto(s: StateView, id: ProductId, n: int) -> bool {
    exists|j: int|
        0 <= j < n && limit_count(s, #[trigger] folded_dep(s, id, j)) == 0
            && amount_of(folded_dep(s, id, j).quantity) > 0
}

pub open spec fn build_blocked(s: StateView, id: ProductId) -> bool {
    build_blocked_upto(s, id, s.products[id as int].dependencies.len() as int)
}

/// How far a folded dependency bounds a build: its present count, and for a consumed
/// dependency also the number of times its amount fits in what the ledger holds of its
/// entry (for a product, the stock), since that is what the build takes.
pub open spec fn limit_count(s: StateView, d: Relation) -> u64 {
    let p = present_count(s, d.quantity);
    let stock = present_count(s, as_stock_price(d.quantity));
    if d.kind == RelationKind::Consumes && stock < p {
        stock
    } else {
        p
    }
}

/// The least `limit_count` among the first `n` folded dependencies of product `id` of
/// the given kind; `u64::MAX` when there are none.
pub open spec fn limit_upto(s: StateView, id: ProductId, kind: RelationKind, n: nat) -> u64
    decreases n,
{
    if n == 0 {
        u64::MAX
    } else {
        let prev = limit_upto(s, id, kind, (n - 1) as nat);
        let d = folded_dep(s, id, n - 1);
        if d.kind == kind && limit_count(s, d) < prev {
            limit_count(s, d)
        } else {
            prev
        }
    }
}

/// How many units of product `id` the ledger allows to build: bounded by every consumed
/// and every manufacturing dependency.
pub open spec fn build_count(s: StateView, id: ProductId) -> u64 {
    let n = s.products[id as int].dependencies.len();
    let buy = limit_upto(s, id, RelationKind::Consumes, n);
    let build = limit_upto(s, id, RelationKind::ManufacturedBy, n);
    if buy < build {
        buy
    } else {
        build
    }
}

/// What the ledger holds of the entry that `q` draws on.
pub open spec fn resource_amount(s: StateView, q: Quantity) -> u64 {
    match q {
        Quantity::Money(_) => s.money,
        Quantity::Material(i, _) => s.materials[i as int].count,
        Quantity::Product(i, _, _) => s.products[i as int].count,
    }
}

/// The state with the ledger entry that `q` draws on set to `v`.
pub open spec fn with_resource(s: StateView, q: Quantity, v: u64) -> StateView {
    match q {
        Quantity::Money(_) => StateView { money: v, ..s },
        Quantity::Material(i, _) => StateView {
            materials: s.materials.update(i as int, ProductMaterialView { count: v, ..s.materials[i as int] }),
            ..s
        },
        Quantity::Product(i, _, _) => StateView {
            products: s.products.update(i as int, ProductView { count: v, ..s.products[i as int] }),
            ..s
        },
    }
}

/// `s` after the first `k` folded `Consumes` dependencies of product `id` (folded in
/// `s0`) have each taken `units` times their amount from the ledger.
pub open spec fn consume_upto(s0: StateView, s: StateView, id: ProductId, units: u64, k: nat) -> StateView
    decreases k,
{
    if k == 0 {
        s
    } else {
        let prev = consume_upto(s0, s, id, units, (k - 1) as nat);
        let d = folded_dep(s0, id, k - 1);
        if d.kind == RelationKind::Consumes {
            with_resource(prev, d.quantity, (resource_amount(prev, d.quantity) - units * amount_of(d.quantity)) as u64)
        } else {
            prev
        }
    }
}

/// Building product `id`: the state afterwards and the number of units built. When a
/// dependency blocks, nothing changes and nothing is built; otherwise every consumed
/// dependency pays for `build_count` units and the perks of the product scale the output.
pub open spec fn build_outcome(s: StateView, id: ProductId) -> (StateView, u64) {
    if build_blocked(s, id) {
        (s, 0)
    } else {
        let units = build_count(s, id);
        (
            consume_upto(s, s, id, units, s.products[id as int].dependencies.len()),
            perked_output(s, id, units),
        )
    }
}

/// The least present count bounds the present count of every dependency of its kind.
pub proof fn lemma_limit_le(s: StateView, id: ProductId, kind: RelationKind, n: nat, j: int)
    requires
        0 <= j < n,
        folded_dep(s, id, j).kind == kind,
    ensures
        limit_upto(s, id, kind, n) <= limit_count(s, folded_dep(s, id, j)),
    decreases n,
{
    if j < n - 1 {
        lemma_limit_le(s, id, kind, (n - 1) as nat, j);
    }
}

/// A consumed dependency of an unblocked build finds enough in the ledger to pay for
/// every unit of the build.
pub proof fn lemma_consume_step(s0: StateView, cur: StateView, id: ProductId, units: u64, k: int)
    requires
        valid_state(s0),
        id < s0.products.len(),
        0 <= k < s0.products[id as int].dependencies.len(),
        !build_blocked(s0, id),
        units == build_count(s0, id),
        folded_dep(s0, id, k).kind == RelationKind::Consumes,
        resource_amount(cur, folded_dep(s0, id, k).quantity) == resource_amount(s0, folded_dep(s0, id, k).quantity),
        same_catalog(s0, cur),
    ensures
        units * amount_of(folded_dep(s0, id, k).quantity) <= resource_amount(cur, folded_dep(s0, id, k).quantity),
        quantity_valid(cur, folded_dep(s0, id, k).quantity),
{
    let n = s0.products[id as int].dependencies.len();
    let d = s0.products[id as int].dependencies[k];
    let q = folded_dep(s0, id, k).quantity;
    assert(product_valid(s0, s0.products[id as int]));
    assert(quantity_valid(s0, d.quantity));
    lemma_fold_keeps_resource(s0.perks, s0.products[id as int].perks, d.quantity, d.quantity);
    lemma_limit_le(s0, id, RelationKind::Consumes, n, k);
    let a = amount_of(q);
    let have = resource_amount(s0, q);
    if a > 0 {
        assert(present_count(s0, as_stock_price(q)) == have / a);
        assert(units <= have / a);
        assert(units * a <= have) by (nonlinear_arith)
            requires
                units <= have / a,
                a > 0,
        ;
    }
}

/// Taking from the ledger entry of the `k`-th consumed dependency leaves the entries of
/// the later consumed dependencies, and the catalog, as they were.
pub proof fn lemma_consume_rest(s0: StateView, prev: StateView, id: ProductId, v: u64, k: int)
    requires
        valid_state(s0),
        id < s0.products.len(),
        0 <= k < s0.products[id as int].dependencies.len(),
        folded_dep(s0, id, k).kind == RelationKind::Consumes,
        quantity_valid(prev, folded_dep(s0, id, k).quantity),
        same_catalog(s0, prev),
        forall|i: int|
            k <= i < s0.products[id as int].dependencies.len() && (#[trigger] folded_dep(s0, id, i)).kind
                == RelationKind::Consumes ==> resource_amount(prev, folded_dep(s0, id, i).quantity)
                == resource_amount(s0, folded_dep(s0, id, i).quantity),
    ensures
        same_catalog(s0, with_resource(prev, folded_dep(s0, id, k).quantity, v)),
        forall|i: int|
            k + 1 <= i < s0.products[id as int].dependencies.len() && (#[trigger] folded_dep(s0, id, i)).kind
                == RelationKind::Consumes ==> resource_amount(
                with_resource(prev, folded_dep(s0, id, k).quantity, v),
                folded_dep(s0, id, i).quantity,
            ) == resource_amount(s0, folded_dep(s0, id, i).quantity),
{
    let p = s0.products[id as int];
    let qk = folded_dep(s0, id, k).quantity;
    let next = with_resource(prev, qk, v);
    assert(product_valid(s0, p));
    assert forall|i: int|
        k + 1 <= i < p.dependencies.len() && (#[trigger] folded_dep(s0, id, i)).kind == RelationKind::Consumes
            implies resource_amount(next, folded_dep(s0, id, i).quantity) == resource_amount(s0, folded_dep(s0, id, i).quantity) by {
        let qi = folded_dep(s0, id, i).quantity;
        assert(p.dependencies[k].kind == RelationKind::Consumes && p.dependencies[i].kind == RelationKind::Consumes);
        assert(!same_resource(p.dependencies[k].quantity, p.dependencies[i].quantity));
        lemma_fold_keeps_resource(s0.perks, p.perks, p.dependencies[k].quantity, qi);
        lemma_fold_keeps_resource(s0.perks, p.perks, p.dependencies[i].quantity, p.dependencies[k].quantity);
        assert(!same_resource(qk, qi));
        assert(quantity_valid(s0, p.dependencies[i].quantity));
        lemma_fold_keeps_resource(s0.perks, p.perks, p.dependencies[i].quantity, p.dependencies[i].quantity);
    }
    assert(same_catalog(s0, next));
}

/// `q` is an amount of product `p`.
pub open spec fn refers_to_product(q: Quantity, p: int) -> bool {
    match q {
        Quantity::Product(i, _, _) => i == p,
        _ => false,
    }
}

/// `q` is an amount of material `m`.
pub open spec fn refers_to_material(q: Quantity, m: int) -> bool {
    match q {
        Quantity::Material(i, _) => i == m,
        _ => false,
    }
}

/// One of the dependencies of `p` is on product `q`.
pub open spec fn depends_on_product(p: ProductView, q: int) -> bool {
    exists|j: int| 0 <= j < p.dependencies.len() && refers_to_product(#[trigger] p.dependencies[j].quantity, q)
}

/// One of the first `n` dependencies of `p` is on material `m`.
pub open spec fn depends_on_material_upto(p: ProductView, m: int, n: int) -> bool {
    exists|j: int| 0 <= j < n && refers_to_material(#[trigger] p.dependencies[j].quantity, m)
}

pub open spec fn depends_on_material(p: ProductView, m: int) -> bool {
    depends_on_material_upto(p, m, p.dependencies.len() as int)
}

/// `path` is a walk through the catalog along product dependencies.
pub open spec fn is_dep_path(ps: Seq<ProductView>, path: Seq<int>) -> bool {
    &&& path.len() >= 1
    &&& forall|k: int| 0 <= k < path.len() ==> 0 <= #[trigger] path[k] < ps.len()
    &&& forall|k: int| 0 <= k < path.len() - 1 ==> depends_on_product(ps[#[trigger] path[k]], path[k + 1])
}

/// Product `b` is `a` or a dependency of `a`, directly or through other products.
pub open spec fn reaches(ps: Seq<ProductView>, a: int, b: int) -> bool {
    exists|path: Seq<int>| #[trigger] is_dep_path(ps, path) && path[0] == a && path.last() == b
}

/// The state after activating the products in `done` and the materials they depend on.
pub open spec fn activated_by(s: StateView, done: Set<int>) -> StateView {
    StateView {
        products: Seq::new(
            s.products.len(),
            |i: int|
                if done.contains(i) {
                    ProductView { active: true, ..s.products[i] }
                } else {
                    s.products[i]
                },
        ),
        materials: Seq::new(
            s.materials.len(),
            |m: int|
                if exists|i: int| done.contains(i) && depends_on_material(s.products[i], m) {
                    ProductMaterialView { active: true, ..s.materials[m] }
                } else {
                    s.materials[m]
                },
        ),
        ..s
    }
}

/// Activating product `id`: it and every product it reaches become active, and so does
/// every material that one of those products depends on.
pub open spec fn activation(s: StateView, id: ProductId) -> StateView {
    activated_by(s, Set::new(|i: int| reaches(s.products, id as int, i)))
}

/// A set of products that holds the start of a path and every product dependency of its
/// members holds the whole path.
pub proof fn lemma_closed_holds_path(ps: Seq<ProductView>, d: Set<int>, path: Seq<int>)
    requires
        is_dep_path(ps, path),
        d.contains(path[0]),
        forall|i: int, q: int| d.contains(i) && 0 <= i < ps.len() && #[trigger] depends_on_product(ps[i], q) ==> d.contains(q),
    ensures
        d.contains(path.last()),
    decreases path.len(),
{
    if path.len() > 1 {
        let shorter = path.drop_last();
        assert(is_dep_path(ps, shorter)) by {
            assert forall|k: int| 0 <= k < shorter.len() - 1 implies depends_on_product(ps[#[trigger] shorter[k]], shorter[k + 1]) by {
                assert(shorter[k] == path[k] && shorter[k + 1] == path[k + 1]);
            }
        }
        lemma_closed_holds_path(ps, d, shorter);
        let k = path.len() - 2;
        assert(path[k] == shorter.last());
        assert(depends_on_product(ps[path[k]], path[k + 1]));
    }
}

/// A path extended by a dependency of its last product.
pub proof fn lemma_reaches_step(ps: Seq<ProductView>, a: int, b: int, c: int)
    requires
        reaches(ps, a, b),
        0 <= c < ps.len(),
        depends_on_product(ps[b], c),
    ensures
        reaches(ps, a, c),
{
    let path = choose|path: Seq<int>| #[trigger] is_dep_path(ps, path) && path[0] == a && path.last() == b;
    let longer = path.push(c);
    assert forall|k: int| 0 <= k < longer.len() - 1 implies depends_on_product(ps[#[trigger] longer[k]], longer[k + 1]) by {
        if k < path.len() - 1 {
            assert(longer[k] == path[k] && longer[k + 1] == path[k + 1]);
        } else {
            assert(longer[k] == b);
        }
    }
    assert(is_dep_path(ps, longer));
}

pub proof fn lemma_reaches_self(ps: Seq<ProductView>, a: int)
    requires
        0 <= a < ps.len(),
    ensures
        reaches(ps, a, a),
{
    let path = seq![a];
    assert(is_dep_path(ps, path));
}

/// Midway through activating product `x` after the products in `done`: `x` is active,
/// and so are the materials of its first `j` dependencies.
pub open spec fn expanding(s: StateView, done: Set<int>, x: int, j: int) -> StateView {
    StateView {
        products: activated_by(s, done.insert(x)).products,
        materials: Seq::new(
            s.materials.len(),
            |m: int|
                if (exists|i: int| done.contains(i) && depends_on_material(s.products[i], m))
                    || depends_on_material_upto(s.products[x], m, j) {
                    ProductMaterialView { active: true, ..s.materials[m] }
                } else {
                    s.materials[m]
                },
        ),
        ..s
    }
}

/// The state with material `m` active.
pub open spec fn with_material_active(s: StateView, m: int) -> StateView {
    StateView { materials: s.materials.update(m, ProductMaterialView { active: true, ..s.materials[m] }), ..s }
}

/// The state with product `p` active.
pub open spec fn with_product_active(s: StateView, p: int) -> StateView {
    StateView { products: s.products.update(p, ProductView { active: true, ..s.products[p] }), ..s }
}

pub proof fn lemma_expanding_start(s: StateView, done: Set<int>, x: int)
    requires
        0 <= x < s.products.len(),
    ensures
        with_product_active(activated_by(s, done), x) == expanding(s, done, x, 0),
{
    let a = with_product_active(activated_by(s, done), x);
    let e = expanding(s, done, x, 0);
    assert(a.products =~= e.products);
    assert(a.materials =~= e.materials);
}

/// Activating the material of the `j`-th dependency of `x` moves the expansion on by one.
pub proof fn lemma_expanding_material(s: StateView, done: Set<int>, x: int, j: int, m: int)
    requires
        0 <= x < s.products.len(),
        0 <= j < s.products[x].dependencies.len(),
        0 <= m < s.materials.len(),
        refers_to_material(s.products[x].dependencies[j].quantity, m),
    ensures
        with_material_active(expanding(s, done, x, j), m) == expanding(s, done, x, j + 1),
{
    let a = with_material_active(expanding(s, done, x, j), m);
    let e = expanding(s, done, x, j + 1);
    assert forall|mm: int| 0 <= mm < s.materials.len() implies
        depends_on_material_upto(s.products[x], mm, j + 1)
        == (depends_on_material_upto(s.products[x], mm, j) || mm == m) by {
        if depends_on_material_upto(s.products[x], mm, j + 1) && mm != m {
            let k = choose|k: int| 0 <= k < j + 1 && refers_to_material(#[trigger] s.products[x].dependencies[k].quantity, mm);
            assert(k != j);
        }
        if mm == m {
            assert(refers_to_material(s.products[x].dependencies[j].quantity, mm));
        }
    }
    assert(a.materials =~= e.materials);
    assert(a.products =~= e.products);
}

/// A dependency of `x` on money or a product leaves the materials as they are.
pub proof fn lemma_expanding_other(s: StateView, done: Set<int>, x: int, j: int)
    requires
        0 <= x < s.products.len(),
        0 <= j < s.products[x].dependencies.len(),
        !(s.products[x].dependencies[j].quantity is Material),
    ensures
        expanding(s, done, x, j) == expanding(s, done, x, j + 1),
{
    let a = expanding(s, done, x, j);
    let e = expanding(s, done, x, j + 1);
    assert forall|mm: int| 0 <= mm < s.materials.len() implies
        depends_on_material_upto(s.products[x], mm, j + 1) == depends_on_material_upto(s.products[x], mm, j) by {
        if depends_on_material_upto(s.products[x], mm, j + 1) {
            let k = choose|k: int| 0 <= k < j + 1 && refers_to_material(#[trigger] s.products[x].dependencies[k].quantity, mm);
            assert(k != j);
        }
    }
    assert(a.materials =~= e.materials);
    assert(a.products =~= e.products);
}

/// Once every dependency of `x` is handled, `x` has joined the activated products.
pub proof fn lemma_expanding_end(s: StateView, done: Set<int>, x: int)
    requires
        0 <= x < s.products.len(),
    ensures
        expanding(s, done, x, s.products[x].dependencies.len() as int) == activated_by(s, done.insert(x)),
{
    let n = s.products[x].dependencies.len() as int;
    let done1 = done.insert(x);
    let a = activated_by(s, done1);
    let e = expanding(s, done, x, n);
    assert forall|mm: int| 0 <= mm < s.materials.len() implies #[trigger] a.materials[mm] == e.materials[mm] by {
        let in_a = exists|i: int| done1.contains(i) && depends_on_material(s.products[i], mm);
        let in_done = exists|i: int| done.contains(i) && depends_on_material(s.products[i], mm);
        let in_x = depends_on_material_upto(s.products[x], mm, n);
        if in_x {
            assert(done1.contains(x) && depends_on_material(s.products[x], mm));
        }
        if in_done {
            let i = choose|i: int| done.contains(i) && depends_on_material(s.products[i], mm);
            assert(done1.contains(i) && depends_on_material(s.products[i], mm));
        }
        if in_a {
            let i = choose|i: int| done1.contains(i) && depends_on_material(s.products[i], mm);
            if i != x {
                assert(done.contains(i));
            }
        }
        assert(in_a == (in_done || in_x));
    }
    assert(a.materials =~= e.materials);
    assert(a.products =~= e.products);
}

pub proof fn lemma_activated_catalog(s: StateView, d: Set<int>)
    ensures
        same_catalog(s, activated_by(s, d)),
{
}

/// A product dependency of a product in a valid state names a product of the catalog.
pub proof fn lemma_dep_in_range(s: StateView, i: int, q: int)
    requires
        valid_state(s),
        0 <= i < s.products.len(),
        depends_on_product(s.products[i], q),
    ensures
        0 <= q < s.products.len(),
{
    let p = s.products[i];
    assert(product_valid(s, p));
    let j = choose|j: int| 0 <= j < p.dependencies.len() && refers_to_product(#[trigger] p.dependencies[j].quantity, q);
    assert(quantity_valid(s, p.dependencies[j].quantity));
}

pub proof fn lemma_same_catalog_trans(a: StateView, b: StateView, c: StateView)
    requires
        same_catalog(a, b),
        same_catalog(b, c),
    ensures
        same_catalog(a, c),
{
}

/// The products that the first `k` entries of `p.unlocks` activate, in order: those whose
/// threshold the stock exceeds.
pub open spec fn unlock_queue(p: ProductView, k: nat) -> Seq<ProductId>
    decreases k,
{
    if k == 0 {
        Seq::empty()
    } else {
        let prev = unlock_queue(p, (k - 1) as nat);
        if p.count > p.unlocks[k - 1].1 {
            prev.push(p.unlocks[k - 1].0)
        } else {
            prev
        }
    }
}

/// Activating the products `ids`, in order.
pub open spec fn activate_all(s: StateView, ids: Seq<ProductId>) -> StateView
    decreases ids.len(),
{
    if ids.len() == 0 {
        s
    } else {
        activation(activate_all(s, ids.drop_last()), ids.last())
    }
}

/// The state with `n` more units of product `id` in stock, held at `u64::MAX`.
pub open spec fn with_stock_added(s: StateView, id: ProductId, n: u64) -> StateView {
    let p = s.products[id as int];
    StateView { products: s.products.update(id as int, ProductView { count: sat_add(p.count, n), ..p }), ..s }
}

/// Constructing product `id`: building it (see `build_outcome`), adding what was built to
/// the stock, then activating every product of its unlock list whose threshold the new
/// stock exceeds. When nothing is built, only the build's consumption stays.
pub open spec fn construct(s: StateView, id: ProductId) -> StateView {
    let (s1, n) = build_outcome(s, id);
    if n == 0 {
        s1
    } else {
        let s2 = with_stock_added(s1, id, n);
        activate_all(s2, unlock_queue(s2.products[id as int], s2.products[id as int].unlocks.len()))
    }
}

/// The least present count among the first `n` `SoldBy` dependencies of product `id`
/// that are present at least once; `None` when there is none.
pub open spec fn sell_multiplier_upto(s: StateView, id: ProductId, n: nat) -> Option<u64>
    decreases n,
{
    if n == 0 {
        None
    } else {
        let prev = sell_multiplier_upto(s, id, (n - 1) as nat);
        let d = s.products[id as int].dependencies[n - 1];
        let cnt = present_count(s, d.quantity);
        if d.kind == RelationKind::SoldBy && cnt != 0 {
            match prev {
                Some(m) => if cnt < m {
                    Some(cnt)
                } else {
                    Some(m)
                },
                None => Some(cnt),
            }
        } else {
            prev
        }
    }
}

/// Selling product `id` when the sale draw is `draw`. A product without a price or
/// stock, or a failed draw, sells nothing. Otherwise the sale is the least present count
/// of the `SoldBy` dependencies that are present (one when none is), capped by the stock;
/// the units move from stock to sold and their price is added to the money.
pub open spec fn sale(s: StateView, id: ProductId, draw: bool) -> StateView {
    let p = s.products[id as int];
    match p.price {
        None => s,
        Some(price) => if p.count == 0 || !draw {
            s
        } else {
            let mult = match sell_multiplier_upto(s, id, p.dependencies.len()) {
                Some(m) => m,
                None => 1,
            };
            let n = if mult < p.count {
                mult
            } else {
                p.count
            };
            StateView {
                money: sat_add(s.money, sat_mul(price, n)),
                products: s.products.update(
                    id as int,
                    ProductView { count: (p.count - n) as u64, sold: sat_add(p.sold, n), ..p },
                ),
                ..s
            }
        },
    }
}

/// Buying one unit of material `id`: when the money covers its price, the price is paid
/// and the unit is bought and stocked. Nothing happens while the stock or the count
/// bought is at `u64::MAX`.
pub open spec fn buy_one(s: StateView, id: int) -> StateView {
    let m = s.materials[id];
    let price = material_price(m);
    if s.money >= price && m.bought < u64::MAX && m.count < u64::MAX {
        StateView {
            money: (s.money - price) as u64,
            materials: s.materials.update(
                id,
                ProductMaterialView { bought: (m.bought + 1) as u64, count: (m.count + 1) as u64, ..m },
            ),
            ..s
        }
    } else {
        s
    }
}

/// Buying material `id` one unit at a time, `n` times; each unit at the price of the moment.
pub open spec fn buy_times(s: StateView, id: int, n: nat) -> StateView
    decreases n,
{
    if n == 0 {
        s
    } else {
        buy_one(buy_times(s, id, (n - 1) as nat), id)
    }
}

/// `v` held within `0..=u64::MAX`.
pub open spec fn clamp_price(v: int) -> u64 {
    if v < 0 {
        0
    } else if v > u64::MAX {
        u64::MAX
    } else {
        v as u64
    }
}

/// The state with the price of product `id`, if it has one, changed by `delta` and held
/// within `0..=u64::MAX`.
pub open spec fn price_changed(s: StateView, id: int, delta: int) -> StateView {
    let p = s.products[id];
    match p.price {
        None => s,
        Some(price) => StateView {
            products: s.products.update(id, ProductView { price: Some(clamp_price(price + delta)), ..p }),
            ..s
        },
    }
}

/// A price entry as it is checked: a product amount counts the units in stock.
pub open spec fn as_stock_price(q: Quantity) -> Quantity {
    match q {
        Quantity::Product(i, c, _) => Quantity::Product(i, c, Some(ProductConditionKind::Count)),
        _ => q,
    }
}

/// The ledger covers every entry of `price` (product entries by their stock).
pub open spec fn price_covered(s: StateView, price: Seq<Quantity>) -> bool {
    conditions_hold(s, price.map_values(|q: Quantity| as_stock_price(q)))
}

/// `s` after the first `k` entries of `price` are taken from the ledger.
pub open spec fn pay_upto(s: StateView, price: Seq<Quantity>, k: nat) -> StateView
    decreases k,
{
    if k == 0 {
        s
    } else {
        let prev = pay_upto(s, price, (k - 1) as nat);
        let q = price[k - 1];
        with_resource(prev, q, (resource_amount(prev, q) - amount_of(q)) as u64)
    }
}

/// Buying perk `id`: when the ledger covers its whole price, the price is paid and the
/// perk becomes active; otherwise nothing changes.
pub open spec fn perk_bought(s: StateView, id: int) -> StateView {
    let price = s.perks[id].buy_price;
    if price_covered(s, price) {
        let t = pay_upto(s, price, price.len());
        StateView { perks: t.perks.update(id, PerkView { active: true, ..t.perks[id] }), ..t }
    } else {
        s
    }
}

/// Buying automation `id`: when the ledger covers its whole price, the price is paid and
/// the automation becomes active; otherwise nothing changes.
pub open spec fn automation_bought(s: StateView, id: int) -> StateView {
    let price = s.automations[id].buy_price;
    if price_covered(s, price) {
        let t = pay_upto(s, price, price.len());
        StateView { automations: t.automations.update(id, AutomationView { active: true, ..t.automations[id] }), ..t }
    } else {
        s
    }
}

/// Paying the `k`-th entry of a price leaves the ledger entries of the later ones, and
/// the catalog, as they were.
pub proof fn lemma_pay_rest(s0: StateView, prev: StateView, price: Seq<Quantity>, k: int, v: u64)
    requires
        0 <= k < price.len(),
        distinct_resources(price),
        quantities_valid(s0, price),
        quantity_valid(prev, price[k]),
        same_catalog(s0, prev),
        forall|i: int| k <= i < price.len() ==> resource_amount(prev, #[trigger] price[i]) == resource_amount(s0, price[i]),
    ensures
        same_catalog(s0, with_resource(prev, price[k], v)),
        forall|i: int|
            k + 1 <= i < price.len() ==> resource_amount(with_resource(prev, price[k], v), #[trigger] price[i])
                == resource_amount(s0, price[i]),
{
    assert forall|i: int| k + 1 <= i < price.len() implies resource_amount(with_resource(prev, price[k], v), #[trigger] price[i])
        == resource_amount(s0, price[i]) by {
        assert(!same_resource(price[k], price[i]));
        assert(quantity_valid(s0, price[i]));
        assert(resource_amount(prev, price[i]) == resource_amount(s0, price[i]));
    }
}

/// `s` after the first `k` products, those that are active, have tried to sell; product
/// `i` uses draw `draws[i]`, and a missing draw is a failed one.
pub open spec fn sell_upto(s: StateView, draws: Seq<bool>, k: nat) -> StateView
    decreases k,
{
    if k == 0 {
        s
    } else {
        let prev = sell_upto(s, draws, (k - 1) as nat);
        let i = k - 1;
        if prev.products[i].active {
            sale(prev, i as ProductId, i < draws.len() && draws[i])
        } else {
            prev
        }
    }
}

/// What the first `k` automations queue when `delta` time passes: the products they
/// build (`builds`) or the materials they buy (`!builds`), in order.
pub open spec fn queue_upto(autos: Seq<AutomationView>, delta: Nanos, k: nat, builds: bool) -> Seq<usize>
    decreases k,
{
    if k == 0 {
        Seq::empty()
    } else {
        let prev = queue_upto(autos, delta, (k - 1) as nat, builds);
        let a = autos[k - 1];
        if fires(a, delta) {
            match a.kind {
                AutomationKind::Build(p) => if builds {
                    prev.push(p)
                } else {
                    prev
                },
                AutomationKind::Buy(m) => if builds {
                    prev
                } else {
                    prev.push(m)
                },
            }
        } else {
            prev
        }
    }
}

/// The state after `delta` time has passed for the first `k` automations.
pub open spec fn tick_upto(s: StateView, delta: Nanos, k: int) -> StateView {
    StateView {
        automations: Seq::new(
            s.automations.len(),
            |j: int|
                if j < k {
                    ticked(s.automations[j], delta)
                } else {
                    s.automations[j]
                },
        ),
        ..s
    }
}

/// Constructing the products `ids`, in order.
pub open spec fn construct_all(s: StateView, ids: Seq<ProductId>) -> StateView
    decreases ids.len(),
{
    if ids.len() == 0 {
        s
    } else {
        construct(construct_all(s, ids.drop_last()), ids.last())
    }
}

/// Buying one unit of each of the materials `ids`, in order.
pub open spec fn buy_all(s: StateView, ids: Seq<usize>) -> StateView
    decreases ids.len(),
{
    if ids.len() == 0 {
        s
    } else {
        buy_times(buy_all(s, ids.drop_last()), ids.last() as int, 1)
    }
}

/// Every badge, perk and automation whose condition holds is unlocked; the others stay
/// as they were.
pub open spec fn unlock_all(s: StateView) -> StateView {
    StateView {
        badges: Seq::new(
            s.badges.len(),
            |i: int|
                BadgeView {
                    unlocked: s.badges[i].unlocked || conditions_hold(s, s.badges[i].condition),
                    ..s.badges[i]
                },
        ),
        perks: Seq::new(
            s.perks.len(),
            |i: int|
                PerkView { unlocked: s.perks[i].unlocked || conditions_hold(s, s.perks[i].condition), ..s.perks[i] },
        ),
        automations: Seq::new(
            s.automations.len(),
            |i: int|
                AutomationView {
                    unlocked: s.automations[i].unlocked || conditions_hold(s, s.automations[i].condition),
                    ..s.automations[i]
                },
        ),
        ..s
    }
}

/// One step of the game when `delta` time has passed: the active products try to sell
/// (with the given draws), the automations tick and queue their work, the queued builds
/// run before the queued purchases, the objective is checked, and unless it holds every
/// badge, perk and automation whose condition holds is unlocked.
pub open spec fn step(s: StateView, delta: Nanos, draws: Seq<bool>) -> StateView {
    let s1 = sell_upto(s, draws, s.products.len());
    let s2 = tick_upto(s1, delta, s1.automations.len() as int);
    let n = s1.automations.len();
    let s3 = construct_all(s2, queue_upto(s1.automations, delta, n, true));
    let s4 = buy_all(s3, queue_upto(s1.automations, delta, n, false));
    if conditions_hold(s4, s4.objective) {
        StateView { win: true, ..s4 }
    } else {
        unlock_all(StateView { win: false, ..s4 })
    }
}

/// Whether conditions hold depends only on the money, the materials and the products.
pub proof fn lemma_conditions_same_ledger(s: StateView, t: StateView, qs: Seq<Quantity>)
    requires
        s.money == t.money,
        s.materials == t.materials,
        s.products == t.products,
    ensures
        conditions_hold(s, qs) == conditions_hold(t, qs),
{
    assert forall|i: int| 0 <= i < qs.len() implies condition_holds(s, #[trigger] qs[i]) == condition_holds(t, qs[i]) by {
    }
}

/// Every entry of the queues of valid automations names a catalog entry.
pub proof fn lemma_queue_valid(s: StateView, delta: Nanos, k: nat, builds: bool)
    requires
        valid_state(s),
        k <= s.automations.len(),
    ensures
        forall|i: int|
            0 <= i < queue_upto(s.automations, delta, k, builds).len() ==> (#[trigger] queue_upto(
                s.automations,
                delta,
                k,
                builds,
            )[i]) < (if builds {
                s.products.len()
            } else {
                s.materials.len()
            }),
    decreases k,
{
    if k > 0 {
        lemma_queue_valid(s, delta, (k - 1) as nat, builds);
        assert(automation_valid(s, s.automations[k - 1]));
        let prev = queue_upto(s.automations, delta, (k - 1) as nat, builds);
        let q = queue_upto(s.automations, delta, k, builds);
        let bound = if builds {
            s.products.len()
        } else {
            s.materials.len()
        };
        assert forall|i: int| 0 <= i < q.len() implies #[trigger] q[i] < bound by {
            if i < prev.len() {
                assert(q[i] == prev[i]);
            }
        }
    }
}

} // verus!
