use vstd::prelude::*;

use crate::catalog::{
    PerkView, ProductMaterialView, growth_factor, material_price, next_factor, ticked,
};
use crate::quantity::{
    PerkKind, ProductConditionKind, Quantity, RelationKind, amount_of, combine, same_resource,
};
use crate::rules::{
    as_stock_price, build_blocked_upto, construct, limit_count, present_count, refers_to_product,
    unlock_queue, limit_upto,
    StateView, activate_all, activation, build_blocked, build_count, build_outcome, buy_all,
    buy_times, clamp_price, construct_all, consume_upto, depends_on_material, depends_on_product,
    fold_perks, folded_dep, is_dep_path, lemma_consume_step, lemma_fold_keeps_resource,
    price_changed, product_valid, quantity_valid, queue_upto, reaches, resource_amount,
    same_catalog, sell_upto, step, tick_upto, valid_state, with_stock_added,
};
use crate::types::{Count, Nanos, PerkId, ProductId};

verus! {

/// A growth step never lowers a factor when the growth factor is at least one.
proof fn lemma_next_factor_grows(f: u64, growth: u64)
    requires
        growth >= 1_000_000,
    ensures
        next_factor(f, growth) >= f,
{
    assert(f * growth >= f * 1_000_000) by (nonlinear_arith)
        requires
            growth >= 1_000_000,
    ;
    assert(f * growth / 1_000_000 >= f) by (nonlinear_arith)
        requires
            f * growth >= f * 1_000_000,
    ;
}

proof fn lemma_growth_factor_monotone(growth: u64, a: nat, b: nat)
    requires
        growth >= 1_000_000,
        a <= b,
    ensures
        growth_factor(growth, a) <= growth_factor(growth, b),
    decreases b - a,
{
    if a < b {
        lemma_growth_factor_monotone(growth, a, (b - 1) as nat);
        lemma_next_factor_grows(growth_factor(growth, (b - 1) as nat), growth);
    }
}

/// With a growth factor of at least one, a material's price never falls as more of it is
/// bought.
pub proof fn lemma_price_monotone(m: ProductMaterialView, bought: Count)
    requires
        m.growth >= 1_000_000,
        m.bought <= bought,
    ensures
        material_price(m) <= material_price(ProductMaterialView { bought, ..m }),
{
    let f1 = growth_factor(m.growth, m.bought as nat);
    let f2 = growth_factor(m.growth, bought as nat);
    lemma_growth_factor_monotone(m.growth, m.bought as nat, bought as nat);
    let base = m.base_price;
    assert(base * f1 / 1_000_000_000 <= base * f2 / 1_000_000_000) by (nonlinear_arith)
        requires
            f1 <= f2,
            base >= 0,
    ;
}

/// Buying a material pays at most the money there is: a unit is bought only when the
/// money covers its price, so the money never drops below zero and never grows; each unit
/// bought adds one to the stock and to the count bought.
pub proof fn lemma_buy_within_means(s: StateView, id: int, n: nat)
    requires
        0 <= id < s.materials.len(),
    ensures
        buy_times(s, id, n).money <= s.money,
        buy_times(s, id, n).materials.len() == s.materials.len(),
        buy_times(s, id, n).materials[id].count - s.materials[id].count == buy_times(s, id, n).materials[id].bought
            - s.materials[id].bought,
        forall|k: nat| #![trigger buy_times(s, id, k)] k < n ==> {
            let before = buy_times(s, id, k);
            let after = buy_times(s, id, (k + 1) as nat);
            after.money == before.money || (before.money >= material_price(before.materials[id]) && after.money
                == before.money - material_price(before.materials[id]))
        },
    decreases n,
{
    if n > 0 {
        lemma_buy_within_means(s, id, (n - 1) as nat);
    }
}

/// Lowering a price by `delta` never takes it below zero: the new price is the old one
/// minus `delta` when that is not negative (and fits), and zero otherwise; a negative
/// `delta` raises it.
pub proof fn lemma_dec_price_floor(s: StateView, id: int, delta: int)
    requires
        0 <= id < s.products.len(),
        s.products[id].price is Some,
    ensures
        price_changed(s, id, -delta).products[id].price == Some(clamp_price(s.products[id].price->0 - delta)),
        s.products[id].price->0 < delta ==> price_changed(s, id, -delta).products[id].price == Some(0u64),
        0 <= s.products[id].price->0 - delta <= u64::MAX ==> price_changed(s, id, -delta).products[id].price
            == Some((s.products[id].price->0 - delta) as u64),
{
}

/// When no dependency blocks, every limit is at least one.
proof fn lemma_limit_positive(s: StateView, id: ProductId, kind: RelationKind, n: nat)
    requires
        !build_blocked_upto(s, id, n as int),
    ensures
        limit_upto(s, id, kind, n) >= 1,
    decreases n,
{
    if n > 0 {
        assert(!build_blocked_upto(s, id, n - 1)) by {
            if build_blocked_upto(s, id, n - 1) {
                let w = choose|w: int|
                    0 <= w < n - 1 && limit_count(s, #[trigger] folded_dep(s, id, w)) == 0
                        && amount_of(folded_dep(s, id, w).quantity) > 0;
                assert(0 <= w < n);
            }
        }
        lemma_limit_positive(s, id, kind, (n - 1) as nat);
        let d = folded_dep(s, id, n - 1);
        if limit_count(s, d) == 0 {
            assert(amount_of(d.quantity) == 0) by {
                if amount_of(d.quantity) > 0 {
                    assert(build_blocked_upto(s, id, n as int));
                }
            }
            assert(present_count(s, d.quantity) == u64::MAX);
            assert(present_count(s, as_stock_price(d.quantity)) == u64::MAX);
        }
    }
}

/// Consuming leaves a ledger entry that no consumed dependency among the first `k` draws
/// on as it was.
proof fn lemma_consume_other(s: StateView, id: ProductId, units: u64, k: nat, r: Quantity)
    requires
        valid_state(s),
        id < s.products.len(),
        k <= s.products[id as int].dependencies.len(),
        quantity_valid(s, r),
        forall|i: int|
            0 <= i < k && (#[trigger] folded_dep(s, id, i)).kind == RelationKind::Consumes ==> !same_resource(
                folded_dep(s, id, i).quantity,
                r,
            ),
    ensures
        resource_amount(consume_upto(s, s, id, units, k), r) == resource_amount(s, r),
        same_catalog(s, consume_upto(s, s, id, units, k)),
    decreases k,
{
    if k > 0 {
        lemma_consume_other(s, id, units, (k - 1) as nat, r);
        let d = folded_dep(s, id, k - 1);
        let p = s.products[id as int];
        assert(product_valid(s, p));
        assert(quantity_valid(s, p.dependencies[k - 1].quantity));
        lemma_fold_keeps_resource(s.perks, p.perks, p.dependencies[k - 1].quantity, p.dependencies[k - 1].quantity);
    }
}

/// Building never takes more of a consumed ledger entry than it holds: when nothing
/// blocks, at least one unit is built, and every consumed dependency's entry ends
/// exactly `units × amount` lower, where it held at least that much. So a dependency
/// consumed with a positive amount strictly shrinks on every build that is not blocked.
pub proof fn lemma_build_consumption(s: StateView, id: ProductId, j: int)
    requires
        valid_state(s),
        id < s.products.len(),
        0 <= j < s.products[id as int].dependencies.len(),
        folded_dep(s, id, j).kind == RelationKind::Consumes,
        !build_blocked(s, id),
    ensures
        build_count(s, id) >= 1,
        resource_amount(s, folded_dep(s, id, j).quantity) >= build_count(s, id) * amount_of(
            folded_dep(s, id, j).quantity,
        ),
        resource_amount(build_outcome(s, id).0, folded_dep(s, id, j).quantity) == resource_amount(
            s,
            folded_dep(s, id, j).quantity,
        ) - build_count(s, id) * amount_of(folded_dep(s, id, j).quantity),
        amount_of(folded_dep(s, id, j).quantity) > 0 ==> resource_amount(
            build_outcome(s, id).0,
            folded_dep(s, id, j).quantity,
        ) < resource_amount(s, folded_dep(s, id, j).quantity),
{
    let p = s.products[id as int];
    let n = p.dependencies.len();
    let units = build_count(s, id);
    let q = folded_dep(s, id, j).quantity;
    lemma_limit_positive(s, id, RelationKind::Consumes, n);
    lemma_limit_positive(s, id, RelationKind::ManufacturedBy, n);
    assert(product_valid(s, p));
    assert(quantity_valid(s, p.dependencies[j].quantity));
    lemma_fold_keeps_resource(s.perks, p.perks, p.dependencies[j].quantity, p.dependencies[j].quantity);
    assert forall|i: int|
        0 <= i < j && (#[trigger] folded_dep(s, id, i)).kind == RelationKind::Consumes implies !same_resource(
        folded_dep(s, id, i).quantity,
        q,
    ) by {
        assert(p.dependencies[i].kind == RelationKind::Consumes && p.dependencies[j].kind == RelationKind::Consumes);
        lemma_fold_keeps_resource(s.perks, p.perks, p.dependencies[i].quantity, q);
        lemma_fold_keeps_resource(s.perks, p.perks, p.dependencies[j].quantity, p.dependencies[i].quantity);
    }
    lemma_consume_other(s, id, units, j as nat, q);
    lemma_consume_step(s, consume_upto(s, s, id, units, j as nat), id, units, j);
    lemma_consume_after(s, id, units, j, n);
    if units >= 1 && amount_of(q) > 0 {
        assert(units * amount_of(q) >= 1) by (nonlinear_arith)
            requires
                units >= 1,
                amount_of(q) >= 1,
        ;
    }
}

proof fn lemma_consume_catalog(s: StateView, id: ProductId, units: u64, k: nat)
    requires
        valid_state(s),
        id < s.products.len(),
        k <= s.products[id as int].dependencies.len(),
    ensures
        same_catalog(s, consume_upto(s, s, id, units, k)),
    decreases k,
{
    if k > 0 {
        lemma_consume_catalog(s, id, units, (k - 1) as nat);
        let p = s.products[id as int];
        assert(product_valid(s, p));
        assert(quantity_valid(s, p.dependencies[k - 1].quantity));
        lemma_fold_keeps_resource(s.perks, p.perks, p.dependencies[k - 1].quantity, p.dependencies[k - 1].quantity);
    }
}

/// After the `j`-th consumed dependency has paid, the later ones leave its entry alone.
proof fn lemma_consume_after(s: StateView, id: ProductId, units: u64, j: int, k: nat)
    requires
        valid_state(s),
        id < s.products.len(),
        0 <= j < k <= s.products[id as int].dependencies.len(),
        folded_dep(s, id, j).kind == RelationKind::Consumes,
    ensures
        resource_amount(consume_upto(s, s, id, units, k), folded_dep(s, id, j).quantity) == resource_amount(
            consume_upto(s, s, id, units, (j + 1) as nat),
            folded_dep(s, id, j).quantity,
        ),
    decreases k,
{
    if k > j + 1 {
        lemma_consume_after(s, id, units, j, (k - 1) as nat);
        let p = s.products[id as int];
        let i = k - 1;
        let q = folded_dep(s, id, j).quantity;
        assert(product_valid(s, p));
        assert(quantity_valid(s, p.dependencies[j].quantity));
        lemma_fold_keeps_resource(s.perks, p.perks, p.dependencies[j].quantity, p.dependencies[j].quantity);
        if folded_dep(s, id, i).kind == RelationKind::Consumes {
            assert(p.dependencies[j].kind == RelationKind::Consumes && p.dependencies[i].kind == RelationKind::Consumes);
            lemma_fold_keeps_resource(s.perks, p.perks, p.dependencies[i].quantity, q);
            lemma_fold_keeps_resource(s.perks, p.perks, p.dependencies[j].quantity, p.dependencies[i].quantity);
            assert(quantity_valid(s, p.dependencies[i].quantity));
            lemma_fold_keeps_resource(s.perks, p.perks, p.dependencies[i].quantity, p.dependencies[i].quantity);
            lemma_consume_catalog(s, id, units, (k - 1) as nat);
        }
    }
}

/// Perks fold in the order the product lists them: a "subtract 2" perk followed by a
/// "divide by 2" perk on the same product quantity turns `base` into `(base - 2) / 2`,
/// and the reverse order turns it into `base / 2 - 2` (both held at zero).
pub proof fn lemma_perk_order(
    perks: Seq<PerkView>,
    a: PerkId,
    b: PerkId,
    id: ProductId,
    base: u64,
    kind: Option<ProductConditionKind>,
    ka: Option<ProductConditionKind>,
    kb: Option<ProductConditionKind>,
)
    requires
        a < perks.len(),
        b < perks.len(),
        perks[a as int].active,
        perks[b as int].active,
        perks[a as int].effect == (Quantity::Product(id, 2, ka), PerkKind::Subtract),
        perks[b as int].effect == (Quantity::Product(id, 2, kb), PerkKind::Divide),
    ensures
        fold_perks(perks, seq![a, b], Quantity::Product(id, base, kind)) == Quantity::Product(
            id,
            if base >= 2 {
                ((base - 2) / 2) as u64
            } else {
                0
            },
            kind,
        ),
        fold_perks(perks, seq![b, a], Quantity::Product(id, base, kind)) == Quantity::Product(
            id,
            if base / 2 >= 2 {
                (base / 2 - 2) as u64
            } else {
                0
            },
            kind,
        ),
{
    let q = Quantity::Product(id, base, kind);
    reveal_with_fuel(fold_perks, 3);
    assert(seq![a, b].drop_last() =~= seq![a]);
    assert(seq![a].drop_last() =~= Seq::<PerkId>::empty());
    assert(seq![b, a].drop_last() =~= seq![b]);
    assert(seq![b].drop_last() =~= Seq::<PerkId>::empty());
    assert(fold_perks(perks, seq![a], q) == combine(q, perks[a as int].effect.0, PerkKind::Subtract));
    assert(fold_perks(perks, seq![b], q) == combine(q, perks[b as int].effect.0, PerkKind::Divide));
}

/// Two catalogs with the same product dependencies reach the same products.
proof fn lemma_reaches_same_deps(ps1: Seq<crate::catalog::ProductView>, ps2: Seq<crate::catalog::ProductView>, a: int, b: int)
    requires
        ps1.len() == ps2.len(),
        forall|i: int| 0 <= i < ps1.len() ==> (#[trigger] ps1[i]).dependencies == ps2[i].dependencies,
    ensures
        reaches(ps1, a, b) == reaches(ps2, a, b),
{
    assert forall|path: Seq<int>| #[trigger] is_dep_path(ps1, path) == is_dep_path(ps2, path) by {
        if is_dep_path(ps1, path) {
            assert forall|k: int| 0 <= k < path.len() - 1 implies depends_on_product(ps2[#[trigger] path[k]], path[k + 1]) by {
                assert(ps1[path[k]].dependencies == ps2[path[k]].dependencies);
                assert(depends_on_product(ps1[path[k]], path[k + 1]));
            }
        }
        if is_dep_path(ps2, path) {
            assert forall|k: int| 0 <= k < path.len() - 1 implies depends_on_product(ps1[#[trigger] path[k]], path[k + 1]) by {
                assert(ps1[path[k]].dependencies == ps2[path[k]].dependencies);
                assert(depends_on_product(ps2[path[k]], path[k + 1]));
            }
        }
    }
    if reaches(ps1, a, b) {
        let path = choose|path: Seq<int>| #[trigger] is_dep_path(ps1, path) && path[0] == a && path.last() == b;
        assert(is_dep_path(ps2, path));
    }
    if reaches(ps2, a, b) {
        let path = choose|path: Seq<int>| #[trigger] is_dep_path(ps2, path) && path[0] == a && path.last() == b;
        assert(is_dep_path(ps1, path));
    }
}

proof fn lemma_reaches_in_range(ps: Seq<crate::catalog::ProductView>, a: int, b: int)
    requires
        reaches(ps, a, b),
    ensures
        0 <= b < ps.len(),
{
    let path = choose|path: Seq<int>| #[trigger] is_dep_path(ps, path) && path[0] == a && path.last() == b;
    assert(0 <= path[path.len() - 1] < ps.len());
}

/// Activating a product a second time changes nothing.
pub proof fn lemma_activation_idempotent(s: StateView, id: ProductId)
    ensures
        activation(activation(s, id), id) == activation(s, id),
{
    let t = activation(s, id);
    let u = activation(t, id);
    assert forall|i: int| 0 <= i < t.products.len() implies (#[trigger] t.products[i]).dependencies
        == s.products[i].dependencies by {
    }
    assert forall|i: int| #[trigger] reaches(t.products, id as int, i) == reaches(s.products, id as int, i) by {
        lemma_reaches_same_deps(t.products, s.products, id as int, i);
    }
    assert forall|m: int| 0 <= m < t.materials.len() implies #[trigger] u.materials[m] == t.materials[m] by {
        let in_t = exists|i: int| reaches(t.products, id as int, i) && depends_on_material(t.products[i], m);
        let in_s = exists|i: int| reaches(s.products, id as int, i) && depends_on_material(s.products[i], m);
        if in_t {
            let i = choose|i: int| reaches(t.products, id as int, i) && depends_on_material(t.products[i], m);
            lemma_reaches_in_range(t.products, id as int, i);
            assert(t.products[i].dependencies == s.products[i].dependencies);
            assert(reaches(s.products, id as int, i) && depends_on_material(s.products[i], m));
        }
        if in_s {
            let i = choose|i: int| reaches(s.products, id as int, i) && depends_on_material(s.products[i], m);
            lemma_reaches_in_range(s.products, id as int, i);
            assert(t.products[i].dependencies == s.products[i].dependencies);
            assert(reaches(t.products, id as int, i) && depends_on_material(t.products[i], m));
        }
        assert(in_t == in_s);
    }
    assert(u.materials =~= t.materials);
    assert(u.products =~= t.products);
}

/// `t` has the badges, perks and automations of `s`.
pub open spec fn same_unlockables(s: StateView, t: StateView) -> bool {
    &&& t.badges == s.badges
    &&& t.perks == s.perks
    &&& t.automations == s.automations
}

proof fn lemma_sell_upto_keeps(s: StateView, draws: Seq<bool>, k: nat)
    ensures
        same_unlockables(s, sell_upto(s, draws, k)),
    decreases k,
{
    if k > 0 {
        lemma_sell_upto_keeps(s, draws, (k - 1) as nat);
    }
}

proof fn lemma_consume_keeps(s0: StateView, s: StateView, id: ProductId, units: u64, k: nat)
    ensures
        same_unlockables(s, consume_upto(s0, s, id, units, k)),
    decreases k,
{
    if k > 0 {
        lemma_consume_keeps(s0, s, id, units, (k - 1) as nat);
    }
}

proof fn lemma_activate_all_keeps(s: StateView, ids: Seq<ProductId>)
    ensures
        same_unlockables(s, activate_all(s, ids)),
    decreases ids.len(),
{
    if ids.len() > 0 {
        lemma_activate_all_keeps(s, ids.drop_last());
    }
}

proof fn lemma_construct_all_keeps(s: StateView, ids: Seq<ProductId>)
    ensures
        same_unlockables(s, construct_all(s, ids)),
    decreases ids.len(),
{
    if ids.len() > 0 {
        lemma_construct_all_keeps(s, ids.drop_last());
        let prev = construct_all(s, ids.drop_last());
        let id = ids.last();
        lemma_consume_keeps(prev, prev, id, build_count(prev, id), prev.products[id as int].dependencies.len());
        let (s1, n) = build_outcome(prev, id);
        let s2 = with_stock_added(s1, id, n);
        lemma_activate_all_keeps(s2, crate::rules::unlock_queue(s2.products[id as int], s2.products[id as int].unlocks.len()));
    }
}

proof fn lemma_buy_times_keeps(s: StateView, id: int, n: nat)
    ensures
        same_unlockables(s, buy_times(s, id, n)),
    decreases n,
{
    if n > 0 {
        lemma_buy_times_keeps(s, id, (n - 1) as nat);
    }
}

proof fn lemma_buy_all_keeps(s: StateView, ids: Seq<usize>)
    ensures
        same_unlockables(s, buy_all(s, ids)),
    decreases ids.len(),
{
    if ids.len() > 0 {
        lemma_buy_all_keeps(s, ids.drop_last());
        lemma_buy_times_keeps(buy_all(s, ids.drop_last()), ids.last() as int, 1);
    }
}

/// A step on which the objective holds leaves every badge, perk and automation as locked
/// or unlocked as it was before the step.
pub proof fn lemma_win_keeps_unlocks(s: StateView, delta: Nanos, draws: Seq<bool>)
    requires
        step(s, delta, draws).win,
    ensures
        step(s, delta, draws).badges == s.badges,
        step(s, delta, draws).perks == s.perks,
        step(s, delta, draws).automations.len() == s.automations.len(),
        forall|i: int|
            0 <= i < s.automations.len() ==> (#[trigger] step(s, delta, draws).automations[i]).unlocked
                == s.automations[i].unlocked,
{
    let s1 = sell_upto(s, draws, s.products.len());
    let n = s1.automations.len();
    let s2 = tick_upto(s1, delta, n as int);
    let s3 = construct_all(s2, queue_upto(s1.automations, delta, n, true));
    let s4 = buy_all(s3, queue_upto(s1.automations, delta, n, false));
    lemma_sell_upto_keeps(s, draws, s.products.len());
    lemma_construct_all_keeps(s2, queue_upto(s1.automations, delta, n, true));
    lemma_buy_all_keeps(s3, queue_upto(s1.automations, delta, n, false));
    assert(crate::rules::conditions_hold(s4, s4.objective));
    assert forall|i: int| 0 <= i < s.automations.len() implies (#[trigger] step(s, delta, draws).automations[i]).unlocked
        == s.automations[i].unlocked by {
        assert(s4.automations[i] == ticked(s1.automations[i], delta));
    }
}

/// Activation changes no ledger amount.
proof fn lemma_activate_all_amounts(s: StateView, ids: Seq<ProductId>, q: Quantity)
    requires
        quantity_valid(s, q),
    ensures
        resource_amount(activate_all(s, ids), q) == resource_amount(s, q),
        activate_all(s, ids).materials.len() == s.materials.len(),
        activate_all(s, ids).products.len() == s.products.len(),
    decreases ids.len(),
{
    if ids.len() > 0 {
        lemma_activate_all_amounts(s, ids.drop_last(), q);
    }
}

/// Repeated construction makes progress or stops: when product `id` consumes, with a
/// positive amount, a ledger entry other than its own stock, each construction either
/// leaves the whole state as it was (the build is blocked) or strictly lowers that entry.
/// A finite entry can only be lowered finitely often, so calling `construct_product`
/// over and over ends in calls that change nothing.
pub proof fn lemma_construct_progress(s: StateView, id: ProductId, j: int)
    requires
        valid_state(s),
        id < s.products.len(),
        0 <= j < s.products[id as int].dependencies.len(),
        folded_dep(s, id, j).kind == RelationKind::Consumes,
        amount_of(folded_dep(s, id, j).quantity) > 0,
        !refers_to_product(folded_dep(s, id, j).quantity, id as int),
    ensures
        construct(s, id) == s || resource_amount(construct(s, id), folded_dep(s, id, j).quantity) < resource_amount(
            s,
            folded_dep(s, id, j).quantity,
        ),
{
    if !build_blocked(s, id) {
        let q = folded_dep(s, id, j).quantity;
        let p = s.products[id as int];
        lemma_build_consumption(s, id, j);
        let (s1, n) = build_outcome(s, id);
        lemma_consume_catalog(s, id, build_count(s, id), p.dependencies.len());
        assert(product_valid(s, p));
        assert(quantity_valid(s, p.dependencies[j].quantity));
        lemma_fold_keeps_resource(s.perks, p.perks, p.dependencies[j].quantity, p.dependencies[j].quantity);
        if n != 0 {
            let s2 = with_stock_added(s1, id, n);
            assert(resource_amount(s2, q) == resource_amount(s1, q));
            lemma_activate_all_amounts(s2, unlock_queue(s2.products[id as int], s2.products[id as int].unlocks.len()), q);
        }
    }
}

} // verus!
