use world_sim::agent::{AgentState, BuildingResources, EconomyError, Job, SimAgent, SocialClass};
use world_sim::buildings::{Building, BuildingOwner, BuildingType};
use world_sim::currency::{CurrencySystem, Wallet};
use world_sim::financing::{deliver_resources, purchase_for_building};
use world_sim::funds::{allocate_fund, materials_cost, price_table, replenish_construction_funds};
use world_sim::labor::{demand_score, labor_targets, plan_from_markets, rebalance_labor};
use world_sim::market::{Market, MarketType, OrderType, TradeExecution, TradeOrder};
use world_sim::market_system::MarketSystem;
use world_sim::roster::{pay_wages, settle_trade};
use world_sim::types::{GridCoord, ResourceType, MILS_PER_COIN};

fn coins(c: u64) -> u64 {
    c * MILS_PER_COIN
}

fn order(agent: u128, resource: ResourceType, quantity: u32, price: u64, kind: OrderType) -> TradeOrder {
    TradeOrder { id: 0, agent_id: agent, resource, quantity, price_per_unit: price, order_type: kind }
}

fn market() -> Market {
    Market::new("Square".to_string(), GridCoord::new(0, 0, 0), MarketType::General)
}

fn agent(id: u128, class: SocialClass, job: Job, wallet: u64) -> SimAgent {
    let mut a = SimAgent::new_with_class(format!("agent{}", id), GridCoord::new(0, 0, 0), class);
    a.id = id;
    a.job = job;
    a.wallet = wallet;
    a
}

#[test]
fn test_agent_creation() {
    let agent = SimAgent::new("Test Agent".to_string(), GridCoord::new(0, 0, 0));
    assert!(agent.is_alive());
    assert_eq!(agent.name, "Test Agent");
}

#[test]
fn new_agents_follow_their_class() {
    let p = SimAgent::new_with_class("p".to_string(), GridCoord::new(1, 2, 3), SocialClass::Peasant);
    assert!(matches!(p.job, Job::Woodcutter | Job::Miner | Job::Farmer));
    assert!(p.age >= 18 && p.age < 78);
    assert_eq!(p.wallet, coins(50));
    let k = SimAgent::new_with_class("k".to_string(), GridCoord::new(0, 0, 0), SocialClass::King);
    assert_eq!(k.job, Job::Unemployed);
    assert_eq!(k.wallet, coins(1000));
    let m = SimAgent::new_with_class("m".to_string(), GridCoord::new(0, 0, 0), SocialClass::Merchant);
    assert_eq!(m.job, Job::Builder);
    assert_eq!(m.needs[ResourceType::Wood.index()], 10);
    assert_eq!(m.needs[ResourceType::Food.index()], 5);
    let mut dead = m.clone();
    dead.state = AgentState::Dead;
    assert!(!dead.is_alive());
}

#[test]
fn no_demand_keeps_base_price() {
    let mut m = market();
    m.add_inventory(ResourceType::Wood, 100, coins(5));
    m.update_prices();
    assert_eq!(m.inventory[0].current_price, coins(5));
    let mut empty = market();
    empty.add_inventory(ResourceType::Wood, 0, coins(5));
    empty.update_prices();
    assert_eq!(empty.inventory[0].current_price, coins(5));
}

#[test]
fn demand_raises_price_within_bounds() {
    let mut m = market();
    m.add_inventory(ResourceType::Wood, 100, coins(5));
    m.place_buy_order(order(1, ResourceType::Wood, 50, coins(6), OrderType::Buy));
    m.update_prices();
    // ratio one half: one fifth above base
    assert_eq!(m.inventory[0].current_price, 6000);
    m.place_buy_order(order(1, ResourceType::Wood, 10_000, coins(6), OrderType::Buy));
    m.update_prices();
    assert_eq!(m.inventory[0].current_price, coins(15));
    let mut bare = market();
    bare.add_inventory(ResourceType::Stone, 0, coins(3));
    bare.place_buy_order(order(1, ResourceType::Stone, 5, coins(3), OrderType::Buy));
    bare.update_prices();
    assert_eq!(bare.inventory[0].current_price, 5400);
}

#[test]
fn crossing_orders_trade_at_midpoint() {
    let mut m = market();
    let mut roster = vec![
        agent(1, SocialClass::Peasant, Job::Farmer, coins(100)),
        agent(2, SocialClass::Peasant, Job::Woodcutter, coins(10)),
    ];
    roster[1].inventory[ResourceType::Wood.index()] = 10;
    m.place_buy_order(order(1, ResourceType::Wood, 10, coins(6), OrderType::Buy));
    m.place_sell_order(order(2, ResourceType::Wood, 10, coins(4), OrderType::Sell));
    let trades = m.match_orders();
    assert_eq!(trades.len(), 1);
    assert_eq!(trades[0].quantity, 10);
    assert_eq!(trades[0].price_per_unit, coins(5));
    assert_eq!(trades[0].buyer_id, 1);
    assert_eq!(trades[0].seller_id, 2);
    assert!(m.buy_orders.is_empty());
    assert!(m.sell_orders.is_empty());
    assert_eq!(m.transaction_count, 1);
    assert_eq!(settle_trade(&mut roster, &trades[0]), Ok(()));
    assert_eq!(roster[0].wallet, coins(50));
    assert_eq!(roster[1].wallet, coins(60));
    assert_eq!(roster[0].inventory[ResourceType::Wood.index()], 10);
    assert_eq!(roster[1].inventory[ResourceType::Wood.index()], 0);
}

#[test]
fn matching_clears_book_and_conserves_volume() {
    let mut m = market();
    m.place_buy_order(order(1, ResourceType::Wood, 15, coins(6), OrderType::Buy));
    m.place_buy_order(order(2, ResourceType::Stone, 5, coins(2), OrderType::Buy));
    m.place_sell_order(order(3, ResourceType::Wood, 10, coins(5), OrderType::Sell));
    m.place_sell_order(order(4, ResourceType::Wood, 10, coins(7), OrderType::Sell));
    m.place_sell_order(order(5, ResourceType::Wood, 10, coins(4), OrderType::Sell));
    m.place_sell_order(order(6, ResourceType::Stone, 5, coins(3), OrderType::Sell));
    let trades = m.match_orders();
    assert_eq!(trades.len(), 2);
    assert_eq!((trades[0].seller_id, trades[0].quantity, trades[0].price_per_unit), (3, 10, 5500));
    assert_eq!((trades[1].seller_id, trades[1].quantity, trades[1].price_per_unit), (5, 5, 5000));
    assert!(m.buy_orders.len() == 1 && m.buy_orders[0].resource == ResourceType::Stone);
    let left: Vec<(u128, u32)> = m.sell_orders.iter().map(|o| (o.agent_id, o.quantity)).collect();
    assert_eq!(left, vec![(4, 10), (5, 5), (6, 5)]);
}

#[test]
fn empty_orders_are_not_queued() {
    let mut m = market();
    m.place_buy_order(order(1, ResourceType::Wood, 0, coins(6), OrderType::Buy));
    m.place_sell_order(order(2, ResourceType::Wood, 0, coins(4), OrderType::Sell));
    assert!(m.buy_orders.is_empty() && m.sell_orders.is_empty());
    assert!(m.match_orders().is_empty());
}

#[test]
fn inventory_removal_is_all_or_nothing() {
    let mut m = market();
    m.add_inventory(ResourceType::Iron, 5, coins(15));
    assert!(!m.remove_inventory(ResourceType::Iron, 6));
    assert_eq!(m.inventory[0].quantity, 5);
    assert!(m.remove_inventory(ResourceType::Iron, 5));
    assert_eq!(m.inventory[0].quantity, 0);
    assert!(!m.remove_inventory(ResourceType::Gold, 1));
    m.add_inventory(ResourceType::Iron, 3, coins(99));
    assert_eq!(m.inventory.len(), 1);
    assert_eq!(m.inventory[0].base_price, coins(15));
}

fn settle_case(buyer_wallet: u64, seller_stock: u32) -> Result<(), EconomyError> {
    let mut roster = vec![
        agent(1, SocialClass::Peasant, Job::Farmer, buyer_wallet),
        agent(2, SocialClass::Peasant, Job::Farmer, 0),
    ];
    roster[1].inventory[ResourceType::Food.index()] = seller_stock;
    let before = roster.clone();
    let t = TradeExecution {
        id: 0,
        buyer_id: 1,
        seller_id: 2,
        resource: ResourceType::Food,
        quantity: 4,
        price_per_unit: coins(2),
        market_id: 0,
    };
    let r = settle_trade(&mut roster, &t);
    if r.is_err() {
        assert_eq!(roster[0].wallet, before[0].wallet);
        assert_eq!(roster[1].inventory, before[1].inventory);
    }
    r
}

#[test]
fn settlement_errors() {
    assert_eq!(settle_case(coins(7), 10), Err(EconomyError::InsufficientFunds));
    assert_eq!(settle_case(coins(8), 3), Err(EconomyError::InsufficientInventory));
    assert_eq!(settle_case(coins(8), 4), Ok(()));
    let mut roster = vec![agent(1, SocialClass::Peasant, Job::Farmer, coins(8))];
    let t = TradeExecution {
        id: 0,
        buyer_id: 1,
        seller_id: 9,
        resource: ResourceType::Food,
        quantity: 1,
        price_per_unit: 1,
        market_id: 0,
    };
    assert_eq!(settle_trade(&mut roster, &t), Err(EconomyError::NotFound));
    let mut full = vec![
        agent(1, SocialClass::Peasant, Job::Farmer, coins(8)),
        agent(2, SocialClass::Peasant, Job::Farmer, u64::MAX),
    ];
    full[1].inventory[ResourceType::Food.index()] = 4;
    let t = TradeExecution { seller_id: 2, quantity: 4, price_per_unit: coins(2), ..t };
    assert_eq!(settle_trade(&mut full, &t), Err(EconomyError::CapacityExceeded));
}

fn site(fund: u64) -> Building {
    let mut b = Building::new(
        BuildingType::Warehouse,
        GridCoord::new(5, 0, 5),
        "Depot".to_string(),
        BuildingOwner::Public,
    );
    b.construction_fund = fund;
    b
}

#[test]
fn builder_buys_with_building_fund() {
    let mut b = site(coins(1500));
    let mut m = market();
    m.add_inventory(ResourceType::Wood, 50, coins(10));
    let mut builder = agent(7, SocialClass::Merchant, Job::Builder, coins(150));
    let mut ledger = CurrencySystem::default();
    let p = purchase_for_building(&mut b, &mut m, &mut builder, &mut ledger).unwrap();
    assert_eq!(ledger.total_supply, coins(10_000) - coins(200));
    assert_eq!(p.resource, ResourceType::Wood);
    assert_eq!(p.quantity, 20);
    assert_eq!(p.cost, coins(200));
    assert_eq!(b.construction_fund, coins(1300));
    assert_eq!(builder.wallet, coins(150));
    let c = builder.carrying_resources.unwrap();
    assert_eq!((c.wood, c.stone, c.iron, c.target_building_id), (20, 0, 0, b.id));
    assert_eq!(m.inventory[0].quantity, 30);
}

#[test]
fn builder_picks_cheapest_material() {
    let mut b = site(coins(1500));
    let mut m = market();
    m.add_inventory(ResourceType::Wood, 50, coins(10));
    m.add_inventory(ResourceType::Stone, 50, coins(3));
    m.add_inventory(ResourceType::Iron, 4, coins(2));
    let mut builder = agent(7, SocialClass::Merchant, Job::Builder, coins(150));
    let p = purchase_for_building(&mut b, &mut m, &mut builder, &mut CurrencySystem::default()).unwrap();
    assert_eq!((p.resource, p.quantity, p.cost), (ResourceType::Iron, 4, coins(8)));
}

#[test]
fn purchase_fails_cleanly() {
    let mut b = site(coins(100));
    let mut m = market();
    m.add_inventory(ResourceType::Wood, 50, coins(10));
    let mut builder = agent(7, SocialClass::Merchant, Job::Builder, coins(1000));
    assert_eq!(
        purchase_for_building(&mut b, &mut m, &mut builder, &mut CurrencySystem::default()),
        Err(EconomyError::InsufficientFunds)
    );
    assert_eq!(b.construction_fund, coins(100));
    assert_eq!(m.inventory[0].quantity, 50);
    assert!(builder.carrying_resources.is_none());
    let mut bare = market();
    assert_eq!(
        purchase_for_building(&mut b, &mut bare, &mut builder, &mut CurrencySystem::default()),
        Err(EconomyError::InsufficientInventory)
    );
    builder.carrying_resources =
        Some(BuildingResources { wood: 1, stone: 0, iron: 0, target_building_id: b.id + 1 });
    assert_eq!(purchase_for_building(&mut b, &mut m, &mut builder, &mut CurrencySystem::default()), Err(EconomyError::NotFound));
}

#[test]
fn delivery_advances_tallies() {
    let mut b = site(coins(1500));
    let mut builder = agent(7, SocialClass::Merchant, Job::Builder, coins(10));
    assert_eq!(deliver_resources(&mut b, &mut builder), Err(EconomyError::NotFound));
    builder.carrying_resources =
        Some(BuildingResources { wood: 20, stone: 5, iron: 0, target_building_id: b.id });
    assert_eq!(deliver_resources(&mut b, &mut builder), Ok(25));
    assert!(builder.carrying_resources.is_none());
    let left = b.remaining_resources();
    assert_eq!(left[ResourceType::Wood.index()], 80);
    assert_eq!(left[ResourceType::Stone.index()], 45);
    assert_eq!(left[ResourceType::Iron.index()], 20);
    assert!(!b.has_sufficient_resources());
}

#[test]
fn construction_consumes_its_share() {
    let mut b = Building::new(
        BuildingType::FarmingShed,
        GridCoord::new(0, 0, 0),
        "Shed".to_string(),
        BuildingOwner::Agent(3),
    );
    assert!(!b.construct_with_resources(500));
    b.add_resources(ResourceType::Wood, 20);
    b.add_resources(ResourceType::Stone, 5);
    assert!(b.has_sufficient_resources());
    assert!(b.construct_with_resources(500));
    assert_eq!(b.construction_progress, 500);
    assert_eq!(b.current_resources[ResourceType::Wood.index()], 10);
    assert_eq!(b.current_resources[ResourceType::Stone.index()], 2);
    assert!(!b.construct_with_resources(600));
    b.add_resources(ResourceType::Wood, 10);
    b.add_resources(ResourceType::Stone, 5);
    assert!(b.construct_with_resources(600));
    assert_eq!(b.construction_progress, 1000);
    assert!(b.is_complete());
}

#[test]
fn minting_raises_supply_and_inflation() {
    let mut c = CurrencySystem::new(coins(10_000));
    let before = c.inflation_rate;
    c.mint_currency(coins(500));
    assert_eq!(c.total_supply, coins(10_500));
    assert!(c.inflation_rate > before);
    assert_eq!(c.inflation_rate, 22_500_000);
    let rate = c.inflation_rate;
    c.mint_currency(1);
    assert!(c.inflation_rate > rate);
    assert!(c.get_purchasing_power() < 1_000_000_000);
}

#[test]
fn burning_never_goes_below_zero() {
    let mut c = CurrencySystem::new(coins(10));
    c.burn_currency(coins(20));
    assert_eq!(c.total_supply, 0);
    assert_eq!(c.deflation_events, 1);
    assert_eq!(c.inflation_rate, -30_000_000);
    c.record_transaction(5);
    assert_eq!(c.transaction_count, 1);
}

#[test]
fn wallet_never_overdraws() {
    let mut w = Wallet::new(coins(10));
    assert!(!w.withdraw(coins(11)));
    assert_eq!(w.balance, coins(10));
    assert!(w.withdraw(coins(4)));
    w.deposit(coins(1));
    assert_eq!((w.balance, w.total_spent, w.total_earned), (coins(7), coins(4), coins(1)));
    assert!(w.can_afford(coins(7)) && !w.can_afford(coins(8)));
    assert_eq!(Wallet::default().balance, coins(100));
}

#[test]
fn wages_are_minted() {
    let mut roster = vec![
        agent(1, SocialClass::Peasant, Job::Farmer, 0),
        agent(2, SocialClass::King, Job::Unemployed, 0),
        agent(3, SocialClass::Peasant, Job::Unemployed, 0),
    ];
    let mut c = CurrencySystem::default();
    pay_wages(&mut roster, &mut c);
    assert_eq!(roster[0].wallet, coins(5));
    assert_eq!(roster[1].wallet, coins(50));
    assert_eq!(roster[2].wallet, 0);
    assert_eq!(c.total_supply, coins(10_055));
}

#[test]
fn labor_targets_follow_demand() {
    let p = labor_targets(500, 300, 200, 40);
    assert_eq!((p.woodcutters, p.miners, p.farmers), (20, 12, 8));
    let floor = labor_targets(1000, 0, 0, 40);
    assert_eq!((floor.woodcutters, floor.miners, floor.farmers), (38, 1, 1));
    let none = labor_targets(0, 0, 0, 0);
    assert_eq!((none.woodcutters, none.miners, none.farmers), (1, 1, 1));
    assert_eq!(demand_score(coins(5), 90), 50_000);
}

#[test]
fn labor_rebalance_is_idempotent() {
    let mut roster = vec![
        agent(1, SocialClass::Peasant, Job::Unemployed, 0),
        agent(2, SocialClass::Noble, Job::Unemployed, 0),
        agent(3, SocialClass::Burgher, Job::Builder, 0),
        agent(4, SocialClass::Peasant, Job::Farmer, 0),
        agent(5, SocialClass::Soldier, Job::Unemployed, 0),
    ];
    let plan = labor_targets(500, 300, 200, 4);
    rebalance_labor(&mut roster, &plan);
    let jobs: Vec<Job> = roster.iter().map(|a| a.job).collect();
    assert_eq!(jobs, vec![Job::Woodcutter, Job::Unemployed, Job::Woodcutter, Job::Farmer, Job::Unemployed]);
    rebalance_labor(&mut roster, &plan);
    let again: Vec<Job> = roster.iter().map(|a| a.job).collect();
    assert_eq!(again, jobs);
}

#[test]
fn markets_rebalance_and_price() {
    let mut sys = MarketSystem::new();
    let a = sys.create_market("A".to_string(), GridCoord::new(0, 0, 0), MarketType::General);
    let b = sys.create_market("B".to_string(), GridCoord::new(9, 0, 0), MarketType::Materials);
    assert_ne!(a, b);
    sys.markets[0].add_inventory(ResourceType::Wood, 200, coins(5));
    sys.markets[1].add_inventory(ResourceType::Wood, 10, coins(5));
    sys.markets[0].add_inventory(ResourceType::Gold, 7, coins(40));
    sys.markets[0].place_buy_order(order(1, ResourceType::Cloth, 2, coins(1), OrderType::Buy));
    sys.balance_market_inventories();
    assert_eq!(sys.markets[0].inventory[1].quantity, 7);
    assert_eq!(sys.markets[0].buy_orders.len(), 1);
    assert_eq!(sys.markets[0].inventory[0].current_price, coins(5));
    assert_eq!(sys.markets[0].inventory[0].quantity, 170);
    assert_eq!(sys.markets[1].inventory[0].quantity, 40);
    assert_eq!(sys.total_inventory(ResourceType::Wood), 210);
    sys.markets[1].inventory[0].current_price = coins(7);
    assert_eq!(sys.get_market_price(ResourceType::Wood), coins(6));
    assert_eq!(sys.get_market_price(ResourceType::Iron), coins(15));
    assert!(sys.get_market(b).is_some());
    assert_eq!(sys.find_nearest_market(GridCoord::new(7, 0, 0), None), Some(1));
    assert_eq!(sys.find_nearest_market(GridCoord::new(7, 0, 0), Some(MarketType::General)), Some(0));
    assert_eq!(sys.find_nearest_market(GridCoord::new(7, 0, 0), Some(MarketType::Food)), None);
    let plan = plan_from_markets(&sys, 10);
    assert_eq!(plan.target_harvesters, 4);
    let prices = price_table(&sys);
    assert_eq!(prices[ResourceType::Stone.index()], coins(3));
}

#[test]
fn funds_come_from_owners() {
    let prices = vec![coins(5), coins(3), coins(15), coins(5), coins(10), coins(5), coins(5), coins(5), coins(5), coins(5)];
    let shed_needs = BuildingType::FarmingShed.required_resources();
    assert_eq!(materials_cost(&shed_needs, &prices), coins(115) as u128);
    let mut shed = Building::new(BuildingType::FarmingShed, GridCoord::new(0, 0, 0), "Shed".to_string(), BuildingOwner::Agent(1));
    let mut owner = agent(1, SocialClass::Noble, Job::Unemployed, coins(500));
    assert_eq!(allocate_fund(&mut shed, &mut owner, &prices, 3), Ok(coins(345)));
    assert_eq!(owner.wallet, coins(155));
    assert_eq!(shed.construction_fund, coins(345));
    assert_eq!(allocate_fund(&mut shed, &mut owner, &prices, 3), Err(EconomyError::InsufficientFunds));
    let mut buildings = vec![shed];
    buildings[0].construction_fund = coins(50);
    let mut roster = vec![owner];
    replenish_construction_funds(&mut buildings, &mut roster, &prices);
    assert_eq!(buildings[0].construction_fund, coins(50));
    roster[0].wallet = coins(400);
    replenish_construction_funds(&mut buildings, &mut roster, &prices);
    assert_eq!(buildings[0].construction_fund, coins(280));
    assert_eq!(roster[0].wallet, coins(170));
}

#[test]
fn public_buildings_are_topped_up_by_patrons() {
    let prices = vec![coins(5), coins(3), coins(15), coins(5), coins(10), coins(5), coins(5), coins(5), coins(5), coins(5)];
    let mut buildings = vec![Building::new(
        BuildingType::FarmingShed,
        GridCoord::new(0, 0, 0),
        "Common shed".to_string(),
        BuildingOwner::Public,
    )];
    let mut roster = vec![
        agent(1, SocialClass::King, Job::Unemployed, coins(1000)),
        agent(2, SocialClass::Noble, Job::Unemployed, coins(100)),
        agent(3, SocialClass::Peasant, Job::Farmer, coins(1000)),
    ];
    replenish_construction_funds(&mut buildings, &mut roster, &prices);
    // twice the 115-coin cost, split over two patrons; the noble cannot pay its share
    assert_eq!(buildings[0].construction_fund, coins(115));
    assert_eq!(roster[0].wallet, coins(885));
    assert_eq!(roster[1].wallet, coins(100));
    assert_eq!(roster[2].wallet, coins(1000));
}

#[test]
fn agents_order_what_they_lack_and_offer_surplus() {
    let mut trader = agent(9, SocialClass::Merchant, Job::Builder, coins(1000));
    trader.inventory[ResourceType::Stone.index()] = 4;
    trader.inventory[ResourceType::Food.index()] = 20;
    let mut m = market();
    assert_eq!(world_sim::work::place_orders(&trader, &mut m), 3);
    let buys: Vec<(ResourceType, u32, u64)> = m.buy_orders.iter().map(|o| (o.resource, o.quantity, o.price_per_unit)).collect();
    assert_eq!(buys, vec![(ResourceType::Wood, 10, coins(10)), (ResourceType::Stone, 6, 4500)]);
    let sells: Vec<(ResourceType, u32, u64)> = m.sell_orders.iter().map(|o| (o.resource, o.quantity, o.price_per_unit)).collect();
    assert_eq!(sells, vec![(ResourceType::Food, 10, coins(12))]);
    assert!(m.buy_orders.iter().all(|o| o.agent_id == 9 && o.order_type == OrderType::Buy));
    let poor = agent(10, SocialClass::Peasant, Job::Builder, coins(1));
    let mut m2 = market();
    assert_eq!(world_sim::work::place_orders(&poor, &mut m2), 0);
}

#[test]
fn processing_markets_reprices_and_matches() {
    let mut sys = MarketSystem::new();
    sys.create_market("A".to_string(), GridCoord::new(0, 0, 0), MarketType::General);
    sys.markets[0].add_inventory(ResourceType::Wood, 100, coins(5));
    sys.markets[0].place_buy_order(order(1, ResourceType::Wood, 10, coins(6), OrderType::Buy));
    sys.markets[0].place_sell_order(order(2, ResourceType::Wood, 10, coins(4), OrderType::Sell));
    let trades = sys.process_all_markets();
    assert_eq!(trades.len(), 1);
    assert_eq!(trades[0].quantity, 10);
    // demand of 10 against 100 in store, seen before matching
    assert_eq!(sys.markets[0].inventory[0].current_price, 5200);
    assert!(sys.markets[0].buy_orders.is_empty() && sys.markets[0].sell_orders.is_empty());
}
