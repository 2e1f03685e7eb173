use incrustmental::catalog::{
    Automation, AutomationKind, Badge, Objective, Perk, Product, ProductMaterial,
};
use incrustmental::incremental::State;
use incrustmental::quantity::{PerkKind, ProductConditionKind, Quantity, Relation, RelationKind};
use incrustmental::timer::Timer;

const SHOP: usize = 0;
const LEMON: usize = 1;
const LEMONADE: usize = 0;

fn unreachable_objective() -> Objective {
    Objective::new(vec![Quantity::Money(u64::MAX)])
}

fn lemonade_state(money: u64, perks: Vec<Perk>, perk_ids: Vec<usize>) -> State {
    State::new(
        money,
        unreachable_objective(),
        vec![
            ProductMaterial::new(1, "Shop".to_string(), 1000, 1_006_789, true),
            ProductMaterial::new(100, "Lemon".to_string(), 10, 1_006_789, true),
        ],
        vec![Product::new(
            "Lemonade".to_string(),
            Some(1000),
            vec![
                Relation::new(RelationKind::Consumes, Quantity::Material(LEMON, 2)),
                Relation::new(RelationKind::ManufacturedBy, Quantity::Material(SHOP, 1)),
                Relation::new(RelationKind::SoldBy, Quantity::Material(SHOP, 1)),
            ],
            perk_ids,
            vec![],
            true,
        )],
        vec![],
        perks,
        vec![],
    )
}

#[test]
fn dec_price() {
    let mut s = State::new(
        0,
        Objective::new(vec![]),
        vec![],
        vec![Product::new("test".to_string(), Some(0), vec![], vec![], vec![], true)],
        vec![],
        vec![],
        vec![],
    );
    s.dec_price(0, -1000);
    assert_eq!(s.products()[0].price(), Some(1000));
    s.dec_price(0, -1000);
    assert_eq!(s.products()[0].price(), Some(2000));
}

#[test]
fn dec_price_stops_at_zero() {
    let mut s = lemonade_state(0, vec![], vec![]);
    s.dec_price(LEMONADE, 400);
    assert_eq!(s.products()[LEMONADE].price(), Some(600));
    s.dec_price(LEMONADE, 5000);
    assert_eq!(s.products()[LEMONADE].price(), Some(0));
    s.inc_price(LEMONADE, 250);
    assert_eq!(s.products()[LEMONADE].price(), Some(250));
    s.inc_price(LEMONADE, -1000);
    assert_eq!(s.products()[LEMONADE].price(), Some(0));
}

#[test]
fn price_change_without_price_is_ignored() {
    let mut s = State::new(
        0,
        Objective::new(vec![]),
        vec![],
        vec![Product::new("free".to_string(), None, vec![], vec![], vec![], true)],
        vec![],
        vec![],
        vec![],
    );
    s.inc_price(0, 10);
    s.dec_price(0, 10);
    assert_eq!(s.products()[0].price(), None);
}

#[test]
fn timer_swallows_whole_periods() {
    let mut t = Timer::new(1_000_000_000);
    assert!(t.tick(2_500_000_000));
    assert_eq!(t.elapsed(), 500_000_000);
    assert_eq!(t.duration(), 1_000_000_000);
}

#[test]
fn timer_accumulates_below_period() {
    let mut t = Timer::new(1_000_000_000);
    assert!(!t.tick(400_000_000));
    assert_eq!(t.elapsed(), 400_000_000);
    assert!(!t.tick(500_000_000));
    assert!(t.tick(100_000_000));
    assert_eq!(t.elapsed(), 0);
}

#[test]
fn lemonade_construct() {
    let mut s = lemonade_state(0, vec![], vec![]);
    s.construct_product(LEMONADE);
    assert_eq!(s.materials()[LEMON].count(), 98);
    assert_eq!(s.materials()[SHOP].count(), 1);
    assert_eq!(s.products()[LEMONADE].count(), 1);
    assert_eq!(s.money(), 0);
}

#[test]
fn construct_blocked_without_material() {
    let mut s = State::new(
        0,
        Objective::new(vec![]),
        vec![
            ProductMaterial::new(0, "Shop".to_string(), 1000, 1_006_789, true),
            ProductMaterial::new(100, "Lemon".to_string(), 10, 1_006_789, true),
        ],
        vec![Product::new(
            "Lemonade".to_string(),
            Some(1000),
            vec![
                Relation::consumes(Quantity::Material(LEMON, 2)),
                Relation::new(RelationKind::ManufacturedBy, Quantity::Material(SHOP, 1)),
            ],
            vec![],
            vec![],
            true,
        )],
        vec![],
        vec![],
        vec![],
    );
    s.construct_product(LEMONADE);
    assert_eq!(s.materials()[LEMON].count(), 100);
    assert_eq!(s.products()[LEMONADE].count(), 0);
}

#[test]
fn construct_consumes_money_and_unlocks() {
    let mut s = State::new(
        5000,
        Objective::new(vec![]),
        vec![ProductMaterial::new(0, "Sugar".to_string(), 10, 1_000_000, false)],
        vec![
            Product::new(
                "Cookie".to_string(),
                None,
                vec![Relation::consumes(Quantity::Money(2000))],
                vec![],
                vec![(1, 1)],
                true,
            ),
            Product::new(
                "Cake".to_string(),
                Some(10),
                vec![Relation::needs(Quantity::Material(0, 1))],
                vec![],
                vec![],
                false,
            ),
        ],
        vec![],
        vec![],
        vec![],
    );
    s.construct_product(0);
    assert_eq!(s.products()[0].count(), 2);
    assert_eq!(s.money(), 1000);
    assert!(s.products()[1].active());
    assert!(s.materials()[0].active());
}

#[test]
fn construct_one_unit_does_not_unlock_at_threshold() {
    let mut s = State::new(
        1000,
        Objective::new(vec![]),
        vec![],
        vec![
            Product::new("A".to_string(), None, vec![Relation::consumes(Quantity::Money(1000))], vec![], vec![(1, 1)], true),
            Product::new("B".to_string(), None, vec![], vec![], vec![], false),
        ],
        vec![],
        vec![],
        vec![],
    );
    s.construct_product(0);
    assert_eq!(s.products()[0].count(), 1);
    assert!(!s.products()[1].active());
}

fn perk(effect: Quantity, kind: PerkKind) -> Perk {
    Perk::new("p".to_string(), "d".to_string(), vec![], vec![], (effect, kind))
}

fn activate_all_perks(s: &mut State) {
    s.update(0, &vec![]);
    for id in 0..s.perks().len() {
        s.buy_perk(id);
    }
}

#[test]
fn perk_fold_order() {
    let perks = vec![
        perk(Quantity::Product(LEMONADE, 2, None), PerkKind::Subtract),
        perk(Quantity::Product(LEMONADE, 2, None), PerkKind::Divide),
    ];
    let mut s = lemonade_state(0, perks, vec![0, 1]);
    activate_all_perks(&mut s);
    assert_eq!(s.apply_product_perks(10, LEMONADE), 4);

    let perks = vec![
        perk(Quantity::Product(LEMONADE, 2, None), PerkKind::Subtract),
        perk(Quantity::Product(LEMONADE, 2, None), PerkKind::Divide),
    ];
    let mut s = lemonade_state(0, perks, vec![1, 0]);
    activate_all_perks(&mut s);
    assert_eq!(s.apply_product_perks(10, LEMONADE), 3);
}

#[test]
fn inactive_perk_is_ignored() {
    let perks = vec![perk(Quantity::Product(LEMONADE, 5, None), PerkKind::Multiply)];
    let s = lemonade_state(0, perks, vec![0]);
    assert_eq!(s.apply_product_perks(3, LEMONADE), 3);
}

#[test]
fn perk_scales_recipe_and_output() {
    let perks = vec![
        perk(Quantity::Material(LEMON, 2), PerkKind::Divide),
        perk(Quantity::Product(LEMONADE, 3, None), PerkKind::Multiply),
    ];
    let mut s = lemonade_state(0, perks, vec![0, 1]);
    activate_all_perks(&mut s);
    let r = s.apply_perk(LEMONADE, Relation::consumes(Quantity::Material(LEMON, 2)));
    assert!(matches!(r.quantity, Quantity::Material(LEMON, 1)));
    s.construct_product(LEMONADE);
    assert_eq!(s.materials()[LEMON].count(), 99);
    assert_eq!(s.products()[LEMONADE].count(), 3);
}

#[test]
fn quantity_op_arithmetic() {
    let m = Quantity::Material(1, 7);
    assert!(matches!(m.op(&Quantity::Material(1, 3), PerkKind::Add), Quantity::Material(1, 10)));
    assert!(matches!(m.op(&Quantity::Material(1, 9), PerkKind::Subtract), Quantity::Material(1, 0)));
    assert!(matches!(m.op(&Quantity::Material(1, 3), PerkKind::Multiply), Quantity::Material(1, 21)));
    assert!(matches!(m.op(&Quantity::Material(1, 2), PerkKind::Divide), Quantity::Material(1, 3)));
    assert!(matches!(m.op(&Quantity::Material(1, 0), PerkKind::Divide), Quantity::Material(1, u64::MAX)));
    assert!(matches!(m.op(&Quantity::Material(2, 3), PerkKind::Add), Quantity::Material(1, 7)));
    assert!(matches!(m.op(&Quantity::Money(3), PerkKind::Add), Quantity::Material(1, 7)));
    assert!(matches!(
        Quantity::Product(0, 4, Some(ProductConditionKind::Sold)).op(&Quantity::Product(0, 1, None), PerkKind::Add),
        Quantity::Product(0, 5, Some(ProductConditionKind::Sold))
    ));
    assert!(matches!(Quantity::Money(u64::MAX).op(&Quantity::Money(1), PerkKind::Add), Quantity::Money(u64::MAX)));
    assert!(m.similar(&Quantity::Material(3, 1)));
    assert!(!m.similar(&Quantity::Money(1)));
    assert_eq!(m.quantity(), 7);
}

#[test]
fn activation_idempotent() {
    let mut s = State::new(
        0,
        Objective::new(vec![]),
        vec![
            ProductMaterial::new(0, "Flour".to_string(), 10, 1_000_000, false),
            ProductMaterial::new(0, "Oven".to_string(), 10, 1_000_000, false),
        ],
        vec![
            Product::new(
                "Bread".to_string(),
                None,
                vec![Relation::consumes(Quantity::Material(0, 1)), Relation::needs(Quantity::Product(1, 1, None))],
                vec![],
                vec![],
                false,
            ),
            Product::new(
                "Dough".to_string(),
                None,
                vec![Relation::needs(Quantity::Material(1, 1)), Relation::needs(Quantity::Product(0, 1, None))],
                vec![],
                vec![],
                false,
            ),
            Product::new("Cake".to_string(), None, vec![], vec![], vec![], false),
        ],
        vec![],
        vec![],
        vec![],
    );
    s.activate_product(0);
    let first: Vec<bool> = s.products().iter().map(|p| p.active()).collect();
    let first_m: Vec<bool> = s.materials().iter().map(|m| m.active()).collect();
    assert_eq!(first, vec![true, true, false]);
    assert_eq!(first_m, vec![true, true]);
    s.activate_product(0);
    let second: Vec<bool> = s.products().iter().map(|p| p.active()).collect();
    let second_m: Vec<bool> = s.materials().iter().map(|m| m.active()).collect();
    assert_eq!(first, second);
    assert_eq!(first_m, second_m);
}

#[test]
fn win_keeps_unlocks() {
    let mut s = State::new(
        100,
        Objective::new(vec![Quantity::Money(50)]),
        vec![],
        vec![],
        vec![Badge::new("b".to_string(), "d".to_string(), vec![])],
        vec![perk(Quantity::Money(1), PerkKind::Add)],
        vec![],
    );
    s.update(1, &vec![]);
    assert!(s.win());
    assert!(!s.badges()[0].unlocked());
    assert!(!s.perks()[0].unlocked());
}

#[test]
fn update_unlocks_when_not_won() {
    let mut s = State::new(
        10,
        Objective::new(vec![Quantity::Money(50)]),
        vec![],
        vec![],
        vec![
            Badge::new("rich".to_string(), "d".to_string(), vec![Quantity::Money(10)]),
            Badge::new("richer".to_string(), "d".to_string(), vec![Quantity::Money(11)]),
        ],
        vec![],
        vec![],
    );
    s.update(1, &vec![]);
    assert!(!s.win());
    assert!(s.badges()[0].unlocked());
    assert!(!s.badges()[1].unlocked());
}

#[test]
fn buy_material_escalates_price() {
    let mut s = State::new(
        10_000,
        Objective::new(vec![]),
        vec![ProductMaterial::new(0, "Shop".to_string(), 1000, 1_006_789, true)],
        vec![],
        vec![],
        vec![],
        vec![],
    );
    assert_eq!(s.materials()[0].price(), 1000);
    s.buy_material(0, 1);
    assert_eq!(s.money(), 9000);
    assert_eq!(s.materials()[0].price(), 1006);
    s.buy_material(0, 20);
    assert_eq!(s.materials()[0].count(), 9);
    assert_eq!(s.materials()[0].bought(), 9);
    assert_eq!(s.money(), 9000 - (1006 + 1013 + 1020 + 1027 + 1034 + 1041 + 1048 + 1055));
    assert_eq!(s.money(), 756);
    assert_eq!(s.materials()[0].price(), 1062);
}

#[test]
fn price_grows_seven_percent_over_ten_units() {
    let m = ProductMaterial::new(10, "Shop".to_string(), 1000, 1_006_789, true);
    assert_eq!(m.price(), 1070);
    let flat = ProductMaterial::new(500, "Flat".to_string(), 1000, 1_000_000, true);
    assert_eq!(flat.price(), 1000);
}

#[test]
fn buy_material_without_money() {
    let mut s = lemonade_state(5, vec![], vec![]);
    s.buy_material(LEMON, 3);
    assert_eq!(s.money(), 5);
    assert_eq!(s.materials()[LEMON].count(), 100);
}

#[test]
fn sale_with_draw() {
    let mut s = lemonade_state(0, vec![], vec![]);
    s.construct_product(LEMONADE);
    s.update(1, &vec![false]);
    assert_eq!(s.products()[LEMONADE].count(), 1);
    s.update(1, &vec![true]);
    assert_eq!(s.products()[LEMONADE].count(), 0);
    assert_eq!(s.products()[LEMONADE].sold(), 1);
    assert_eq!(s.products()[LEMONADE].produced(), 1);
    assert_eq!(s.money(), 1000);
}

#[test]
fn sale_scaled_by_sold_by() {
    let mut s = State::new(
        0,
        Objective::new(vec![]),
        vec![ProductMaterial::new(3, "Stand".to_string(), 10, 1_000_000, true)],
        vec![Product::new(
            "Juice".to_string(),
            Some(500),
            vec![Relation::new(RelationKind::SoldBy, Quantity::Material(0, 1))],
            vec![],
            vec![],
            true,
        )],
        vec![],
        vec![],
        vec![],
    );
    s.construct_product(0);
    assert_eq!(s.products()[0].count(), u64::MAX);
    s.sell_product(0, true);
    assert_eq!(s.products()[0].sold(), 3);
    assert_eq!(s.money(), 1500);
}

#[test]
fn automation_builds_on_timer() {
    let mut s = State::new(
        3000,
        unreachable_objective(),
        vec![ProductMaterial::new(10, "Lemon".to_string(), 10, 1_000_000, true)],
        vec![Product::new(
            "Lemonade".to_string(),
            None,
            vec![Relation::consumes(Quantity::Material(0, 5))],
            vec![],
            vec![],
            true,
        )],
        vec![],
        vec![],
        vec![Automation::new(
            "Maker".to_string(),
            AutomationKind::Build(0),
            Some(Timer::new(1_000_000_000)),
            vec![],
            vec![Quantity::Money(2000)],
        )],
    );
    s.update(0, &vec![]);
    assert!(s.automations()[0].unlocked());
    s.buy_automation(0);
    assert!(s.automations()[0].active());
    assert_eq!(s.money(), 1000);
    s.update(600_000_000, &vec![]);
    assert_eq!(s.products()[0].count(), 0);
    s.update(600_000_000, &vec![]);
    assert_eq!(s.products()[0].count(), 2);
    assert_eq!(s.materials()[0].count(), 0);
    s.toggle_automation(0);
    assert!(s.automations()[0].paused());
}

#[test]
fn automation_builds_before_buying() {
    let mut s = State::new(
        1000,
        unreachable_objective(),
        vec![ProductMaterial::new(0, "Lemon".to_string(), 10, 1_000_000, true)],
        vec![Product::new(
            "Lemonade".to_string(),
            None,
            vec![Relation::consumes(Quantity::Material(0, 1))],
            vec![],
            vec![],
            true,
        )],
        vec![],
        vec![],
        vec![
            Automation::new("Buyer".to_string(), AutomationKind::Buy(0), None, vec![], vec![]),
            Automation::new("Maker".to_string(), AutomationKind::Build(0), None, vec![], vec![]),
        ],
    );
    s.update(0, &vec![]);
    s.buy_automation(0);
    s.buy_automation(1);
    s.update(1, &vec![]);
    assert_eq!(s.products()[0].count(), 0);
    assert_eq!(s.materials()[0].count(), 1);
    s.update(1, &vec![]);
    assert_eq!(s.products()[0].count(), 1);
    assert_eq!(s.materials()[0].count(), 1);
}

#[test]
fn buy_perk_needs_whole_price() {
    let mut s = State::new(
        1000,
        unreachable_objective(),
        vec![ProductMaterial::new(1, "Shop".to_string(), 10, 1_000_000, true)],
        vec![],
        vec![],
        vec![Perk::new(
            "p".to_string(),
            "d".to_string(),
            vec![],
            vec![Quantity::Money(500), Quantity::Material(0, 2)],
            (Quantity::Money(1), PerkKind::Add),
        )],
        vec![],
    );
    s.update(0, &vec![]);
    s.buy_perk(0);
    assert!(!s.perks()[0].active());
    assert_eq!(s.money(), 1000);
    s.buy_material(0, 1);
    s.buy_perk(0);
    assert!(s.perks()[0].active());
    assert_eq!(s.money(), 490);
    assert_eq!(s.materials()[0].count(), 0);
}

#[test]
fn try_new_rejects_bad_catalog() {
    let bad_id = State::try_new(
        0,
        Objective::new(vec![Quantity::Material(3, 1)]),
        vec![],
        vec![],
        vec![],
        vec![],
        vec![],
    );
    assert!(bad_id.is_none());
    let twice = State::try_new(
        0,
        Objective::new(vec![]),
        vec![ProductMaterial::new(0, "Lemon".to_string(), 10, 1_000_000, true)],
        vec![Product::new(
            "Lemonade".to_string(),
            None,
            vec![Relation::consumes(Quantity::Material(0, 1)), Relation::consumes(Quantity::Material(0, 2))],
            vec![],
            vec![],
            true,
        )],
        vec![],
        vec![],
        vec![],
    );
    assert!(twice.is_none());
    let good = State::try_new(
        7,
        Objective::new(vec![Quantity::Product(0, 1, Some(ProductConditionKind::Sold))]),
        vec![],
        vec![Product::new("A".to_string(), None, vec![], vec![], vec![], true)],
        vec![],
        vec![],
        vec![],
    );
    assert_eq!(good.map(|s| s.money()), Some(7));
}

#[test]
fn check_condition_counters() {
    let mut s = lemonade_state(0, vec![], vec![]);
    s.construct_product(LEMONADE);
    s.sell_product(LEMONADE, true);
    s.construct_product(LEMONADE);
    assert!(s.check_condition(&Quantity::Product(LEMONADE, 2, None)));
    assert!(s.check_condition(&Quantity::Product(LEMONADE, 2, Some(ProductConditionKind::Produced))));
    assert!(!s.check_condition(&Quantity::Product(LEMONADE, 2, Some(ProductConditionKind::Count))));
    assert!(!s.check_condition(&Quantity::Product(LEMONADE, 2, Some(ProductConditionKind::Sold))));
    assert!(s.check_condition(&Quantity::Money(1000)));
    assert!(!s.check_condition(&Quantity::Money(1001)));
    assert_eq!(s.quantity_present_count(&Quantity::Material(LEMON, 3)), 32);
    assert_eq!(s.quantity_present_count(&Quantity::Money(0)), u64::MAX);
    assert_eq!(s.quantity_present_count(&Quantity::Money(300)), 3);
}

#[test]
fn repeated_construct_runs_out() {
    let mut s = lemonade_state(0, vec![], vec![]);
    let mut rounds = 0;
    loop {
        let before = s.materials()[LEMON].count();
        s.construct_product(LEMONADE);
        rounds += 1;
        if s.materials()[LEMON].count() == before {
            break;
        }
        assert!(rounds <= 50);
    }
    assert_eq!(s.materials()[LEMON].count(), 0);
    assert_eq!(s.products()[LEMONADE].count(), 50);
}

#[test]
fn money_perks_scale_thousandths() {
    let two = Quantity::Money(2000);
    assert!(matches!(two.op(&Quantity::Money(2000), PerkKind::Multiply), Quantity::Money(4000)));
    assert!(matches!(Quantity::Money(5000).op(&Quantity::Money(2000), PerkKind::Divide), Quantity::Money(2500)));
    assert!(matches!(Quantity::Money(3000).op(&Quantity::Money(500), PerkKind::Multiply), Quantity::Money(1500)));
    assert!(matches!(Quantity::Money(3000).op(&Quantity::Money(0), PerkKind::Divide), Quantity::Money(u64::MAX)));
    assert!(matches!(two.op(&Quantity::Money(500), PerkKind::Add), Quantity::Money(2500)));
}

#[test]
fn money_discount_perk_halves_cost() {
    let mut s = State::new(
        4000,
        unreachable_objective(),
        vec![],
        vec![Product::new(
            "Ticket".to_string(),
            None,
            vec![Relation::consumes(Quantity::Money(2000))],
            vec![0],
            vec![],
            true,
        )],
        vec![],
        vec![perk(Quantity::Money(500), PerkKind::Multiply)],
        vec![],
    );
    activate_all_perks(&mut s);
    s.construct_product(0);
    assert_eq!(s.products()[0].count(), 4);
    assert_eq!(s.money(), 0);
}

#[test]
fn present_count_follows_qualifier() {
    let mut s = lemonade_state(0, vec![], vec![]);
    s.construct_product(LEMONADE);
    s.sell_product(LEMONADE, true);
    assert_eq!(s.products()[LEMONADE].count(), 0);
    assert_eq!(s.quantity_present_count(&Quantity::Product(LEMONADE, 1, Some(ProductConditionKind::Sold))), 1);
    assert_eq!(s.quantity_present_count(&Quantity::Product(LEMONADE, 1, Some(ProductConditionKind::Count))), 0);
    assert_eq!(s.quantity_present_count(&Quantity::Product(LEMONADE, 1, None)), 1);
}

#[test]
fn consumed_product_bounded_by_stock() {
    let mut s = State::new(
        1000,
        unreachable_objective(),
        vec![],
        vec![
            Product::new(
                "Juice".to_string(),
                Some(1000),
                vec![Relation::consumes(Quantity::Money(100))],
                vec![],
                vec![],
                true,
            ),
            Product::new(
                "Crate".to_string(),
                None,
                vec![Relation::consumes(Quantity::Product(0, 1, Some(ProductConditionKind::Sold)))],
                vec![],
                vec![],
                true,
            ),
        ],
        vec![],
        vec![],
        vec![],
    );
    s.construct_product(0);
    assert_eq!(s.products()[0].count(), 10);
    for _ in 0..6 {
        s.sell_product(0, true);
    }
    assert_eq!(s.products()[0].sold(), 6);
    assert_eq!(s.products()[0].count(), 4);
    s.construct_product(1);
    assert_eq!(s.products()[1].count(), 4);
    assert_eq!(s.products()[0].count(), 0);
}

#[test]
fn default_state_is_empty() {
    let mut s = State::default();
    assert_eq!(s.money(), 0);
    assert!(!s.win());
    assert!(s.products().is_empty());
    s.update(1, &vec![]);
    assert!(s.win());
}

#[test]
fn consumed_product_without_stock_blocks_perk_output() {
    let mut s = State::new(
        500,
        unreachable_objective(),
        vec![],
        vec![
            Product::new(
                "Box".to_string(),
                None,
                vec![Relation::consumes(Quantity::Product(1, 1, None))],
                vec![0],
                vec![],
                true,
            ),
            Product::new(
                "Juice".to_string(),
                Some(1000),
                vec![Relation::consumes(Quantity::Money(100))],
                vec![],
                vec![],
                true,
            ),
        ],
        vec![],
        vec![perk(Quantity::Product(0, 2, None), PerkKind::Add)],
        vec![],
    );
    activate_all_perks(&mut s);
    s.construct_product(1);
    for _ in 0..5 {
        s.sell_product(1, true);
    }
    assert_eq!(s.products()[1].count(), 0);
    assert_eq!(s.products()[1].sold(), 5);
    for _ in 0..3 {
        s.construct_product(0);
    }
    assert_eq!(s.products()[0].count(), 0);
    assert_eq!(s.products()[1].sold(), 5);
}
