use world_sim::agent::{Job, SimAgent, SocialClass};
use world_sim::buildings::{
    building_for_goal, can_order_building, construction_slots, Building, BuildingOwner, BuildingType,
    KingdomGoal,
};
use world_sim::goals::Goal;
use world_sim::resources::{ResourceManager, ResourceNode, ResourceNodeType};
use world_sim::roster::collect_taxes;
use world_sim::schedule::{LockSet, LockTier, WageClock};
use world_sim::types::{BlockType, GridCoord, ResourceType, MILS_PER_COIN};
use world_sim::weather::{WeatherState, WeatherSubsystem};

fn member(id: u128, class: SocialClass, wallet: u64) -> SimAgent {
    let mut a = SimAgent::new_with_class(format!("m{}", id), GridCoord::new(0, 0, 0), class);
    a.id = id;
    a.wallet = wallet;
    a
}

#[test]
fn taxes_move_money_to_patrons() {
    let mut roster = vec![
        member(1, SocialClass::Peasant, 100 * MILS_PER_COIN),
        member(2, SocialClass::Merchant, 40 * MILS_PER_COIN),
        member(3, SocialClass::King, 1000 * MILS_PER_COIN),
        member(4, SocialClass::Noble, 500 * MILS_PER_COIN),
        member(5, SocialClass::Soldier, 201 * MILS_PER_COIN),
    ];
    let before: u64 = roster.iter().map(|a| a.wallet).sum();
    let collected = collect_taxes(&mut roster, &mut world_sim::currency::CurrencySystem::default());
    assert_eq!(collected, 5_000 + 10_050);
    assert_eq!(roster[0].wallet, 95_000);
    assert_eq!(roster[1].wallet, 40_000);
    assert_eq!(roster[4].wallet, 190_950);
    assert_eq!(roster[2].wallet, 1_000_000 + 7_525);
    assert_eq!(roster[3].wallet, 500_000 + 7_525);
    let after: u64 = roster.iter().map(|a| a.wallet).sum();
    assert_eq!(before, after);
    let mut no_patrons = vec![member(1, SocialClass::Peasant, 100 * MILS_PER_COIN)];
    let mut ledger = world_sim::currency::CurrencySystem::default();
    assert_eq!(collect_taxes(&mut no_patrons, &mut ledger), 5_000);
    assert_eq!(no_patrons[0].wallet, 95 * MILS_PER_COIN);
    assert_eq!(ledger.total_supply, 10_000 * MILS_PER_COIN - 5_000);
}

#[test]
fn who_may_order_what() {
    assert!(can_order_building(SocialClass::King, BuildingType::Walls));
    assert!(can_order_building(SocialClass::Noble, BuildingType::Mine));
    assert!(!can_order_building(SocialClass::Noble, BuildingType::Church));
    assert!(can_order_building(SocialClass::Cleric, BuildingType::Church));
    assert!(can_order_building(SocialClass::Peasant, BuildingType::FarmingShed));
    assert!(!can_order_building(SocialClass::Peasant, BuildingType::Tavern));
    assert!(!can_order_building(SocialClass::Knight, BuildingType::Barracks));
}

#[test]
fn completion_counts_delivered_share() {
    let mut b = Building::new(BuildingType::Tavern, GridCoord::new(0, 0, 0), "Inn".to_string(), BuildingOwner::Public);
    assert_eq!(b.resource_completion_permille(), 0);
    b.add_resources(ResourceType::Wood, 50);
    b.add_resources(ResourceType::Iron, 5);
    assert_eq!(b.resource_completion_permille(), 647);
    assert_eq!(BuildingType::Walls.required_resources()[ResourceType::Stone.index()], 200);
}

#[test]
fn harvest_clamps_and_regeneration_caps() {
    let mut rm = ResourceManager::new();
    let tree = ResourceNode::new(ResourceNodeType::Tree, GridCoord::new(10, 0, 0), 30);
    let id = tree.id;
    rm.add_node(tree);
    rm.add_node(ResourceNode::new(ResourceNodeType::Tree, GridCoord::new(2, 0, 0), 5));
    rm.add_node(ResourceNode::new(ResourceNodeType::Rock, GridCoord::new(1, 0, 0), 9));
    assert_eq!(rm.harvest(id, 50), Some(30));
    assert_eq!(rm.nodes[0].quantity, 0);
    assert_eq!(rm.harvest(id.wrapping_add(12345), 1), None);
    assert_eq!(rm.find_nearest(GridCoord::new(0, 0, 0), ResourceNodeType::Tree), Some(1));
    assert_eq!(rm.get_nodes_by_type(ResourceNodeType::Tree).len(), 2);
    rm.regenerate(8, 10);
    assert_eq!(rm.nodes[0].quantity, 8);
    assert_eq!(rm.nodes[1].quantity, 10);
    assert_eq!(rm.nodes[2].quantity, 10);
    rm.generate_random_nodes(20, 100);
    assert_eq!(rm.nodes.len(), 20);
    for n in &rm.nodes {
        assert!(n.quantity >= 50 && n.quantity < 200);
        assert!(n.position.x >= -100 && n.position.x < 100);
    }
}

#[test]
fn weather_changes_when_it_runs_out() {
    let mut w = WeatherSubsystem::new();
    assert_eq!(w.current_weather(), WeatherState::Clear);
    for _ in 0..28 {
        assert!(!w.advance(2, 0));
    }
    assert_eq!(w.current_weather(), WeatherState::Clear);
    assert!(!w.advance(2, 0));
    assert!(w.advance(2, 5));
    assert_eq!(w.current_weather(), WeatherState::Drought);
    for _ in 0..200 {
        w.tick();
    }
}

#[test]
fn locks_follow_the_global_order() {
    let mut held = LockSet::new();
    assert!(held.acquire(LockTier::Market));
    assert!(held.acquire(LockTier::AgentRoster));
    assert!(!held.acquire(LockTier::BuildingRegistry));
    assert_eq!(held.release(), Some(LockTier::AgentRoster));
    assert!(held.acquire(LockTier::BuildingRegistry));
    assert_eq!(held.holds(), 2);
}

#[test]
fn wages_fall_due_each_period() {
    let mut clock = WageClock::new();
    let mut due = 0;
    for _ in 0..122 {
        if clock.on_slow_tick() {
            due += 1;
        }
    }
    assert_eq!(due, 2);
}

#[test]
fn small_value_types() {
    assert!(BlockType::Stone.is_solid() && !BlockType::Water.is_solid());
    assert!(BlockType::Grass.is_walkable() && !BlockType::Dirt.is_walkable());
    let c = GridCoord::new(-1, 15, 16).to_chunk_coord(16);
    assert_eq!((c.x, c.y, c.z), (-1, 0, 1));
    assert_eq!(GridCoord::new(1, 2, 3).manhattan_distance(&GridCoord::new(-1, 5, 3)), 5);
    assert_eq!(Goal::new("NotHungry").condition, "NotHungry");
    assert!(Job::Miner.is_harvester() && !Job::Builder.is_harvester());
}

#[test]
fn harvesting_respects_capacity() {
    let mut rm = ResourceManager::new();
    rm.add_node(ResourceNode::new(ResourceNodeType::Tree, GridCoord::new(0, 0, 0), 3));
    let mut a = member(1, SocialClass::Peasant, 0);
    assert_eq!(world_sim::work::harvest_into(&mut rm, &mut a, 0, 5), Ok(3));
    assert_eq!(rm.nodes[0].quantity, 0);
    assert_eq!(a.inventory[ResourceType::Wood.index()], 3);
    a.inventory[ResourceType::Stone.index()] = 45;
    assert_eq!(
        world_sim::work::harvest_into(&mut rm, &mut a, 0, 5),
        Err(world_sim::agent::EconomyError::CapacityExceeded)
    );
}

#[test]
fn selling_to_market_mints_payment() {
    let mut a = member(1, SocialClass::Peasant, 0);
    a.inventory[ResourceType::Wood.index()] = 10;
    a.inventory[ResourceType::Food.index()] = 2;
    let mut m = world_sim::market::Market::new("M".to_string(), GridCoord::new(0, 0, 0), world_sim::market::MarketType::Food);
    m.add_inventory(ResourceType::Wood, 5, 5 * MILS_PER_COIN);
    let mut c = world_sim::currency::CurrencySystem::default();
    let earned = world_sim::work::sell_to_market(&mut a, &mut m, &mut c).unwrap();
    assert_eq!(earned, 63_000);
    assert_eq!(a.wallet, 63_000);
    assert_eq!(c.total_supply, 10_000_000 + 63_000);
    assert_eq!(m.inventory[0].quantity, 15);
    assert_eq!(m.inventory[1].resource_type, ResourceType::Food);
    assert_eq!(m.inventory[1].quantity, 2);
    assert!(a.inventory.iter().all(|&q| q == 0));
}

#[test]
fn idle_builders_are_spread_over_sites() {
    let mut roster = vec![
        member(1, SocialClass::Merchant, 0),
        member(2, SocialClass::Peasant, 0),
        member(3, SocialClass::Burgher, 0),
        member(4, SocialClass::Merchant, 0),
    ];
    let mut done = Building::new(BuildingType::Farm, GridCoord::new(1, 0, 1), "Old farm".to_string(), BuildingOwner::Public);
    done.construction_progress = 1000;
    let a = Building::new(BuildingType::Tavern, GridCoord::new(2, 0, 2), "Inn".to_string(), BuildingOwner::Public);
    let b = Building::new(BuildingType::Church, GridCoord::new(3, 0, 3), "Chapel".to_string(), BuildingOwner::Public);
    let (ida, idb) = (a.id, b.id);
    let sites = vec![done, a, b];
    assert_eq!(world_sim::work::assign_builders(&mut roster, &sites), 3);
    let target = |k: usize| roster[k].carrying_resources.map(|c| c.target_building_id);
    assert_eq!(target(0), Some(ida));
    assert_eq!(target(1), None);
    assert_eq!(target(2), Some(idb));
    assert_eq!(target(3), Some(ida));
    assert_eq!(roster[0].job, Job::Builder);
}

#[test]
fn nobles_build_towards_the_goal() {
    assert_eq!(building_for_goal(KingdomGoal::DefendTerritory, 1), Some(BuildingType::Walls));
    assert_eq!(building_for_goal(KingdomGoal::ImproveInfrastructure, 5), Some(BuildingType::Market));
    assert_eq!(building_for_goal(KingdomGoal::Consolidate, 0), None);
    let mut sites: Vec<Building> = (0..3)
        .map(|i| Building::new(BuildingType::Farm, GridCoord::new(i, 0, 0), format!("Farm {}", i), BuildingOwner::Public))
        .collect();
    sites[0].construction_progress = 1000;
    assert_eq!(construction_slots(&sites), 6);
}

#[test]
fn fresh_ledger_rate_follows_supply() {
    let mut c = world_sim::currency::CurrencySystem::new(0);
    let before = c.inflation_rate;
    assert_eq!(before, -30_000_000);
    c.mint_currency(1);
    assert!(c.inflation_rate > before);
    assert_eq!(world_sim::currency::CurrencySystem::default().inflation_rate, 20_000_000);
}

#[test]
fn taxes_leave_remainder_with_first_patron() {
    let mut roster = vec![
        member(1, SocialClass::Peasant, 100 * MILS_PER_COIN + 20),
        member(2, SocialClass::Noble, 0),
        member(3, SocialClass::King, 0),
    ];
    let collected = collect_taxes(&mut roster, &mut world_sim::currency::CurrencySystem::default());
    assert_eq!(collected, 5_001);
    assert_eq!(roster[1].wallet, 2_501);
    assert_eq!(roster[2].wallet, 2_500);
}

#[test]
fn nobles_and_peasants_commission_buildings() {
    let prices: Vec<u64> = vec![5000, 3000, 15000, 5000, 10000, 5000, 5000, 5000, 5000, 5000];
    let mut roster = vec![
        member(1, SocialClass::Noble, 10_000 * MILS_PER_COIN),
        member(2, SocialClass::King, 10_000 * MILS_PER_COIN),
        member(3, SocialClass::Peasant, 1_000 * MILS_PER_COIN),
    ];
    roster[2].job = Job::Farmer;
    let mut sites: Vec<Building> = Vec::new();
    let made = world_sim::commissions::noble_orders(
        &mut sites,
        &mut roster,
        &prices,
        KingdomGoal::PrepareForWar,
        3,
        &vec![(0, 0), (0, 0), (0, 0)],
    );
    assert_eq!(made, 1);
    assert_eq!(sites[0].building_type, BuildingType::Barracks);
    assert_eq!(sites[0].owner, BuildingOwner::Public);
    // barracks: 80 wood, 60 stone, 30 iron, set aside three times over
    let fund: u64 = 3 * (80 * 5000 + 60 * 3000 + 30 * 15000);
    assert_eq!(sites[0].construction_fund, fund);
    assert_eq!(roster[0].wallet, 10_000 * MILS_PER_COIN - fund / 2);
    assert_eq!(roster[1].wallet, 10_000 * MILS_PER_COIN - fund / 2);
    assert_eq!(roster[2].wallet, 1_000 * MILS_PER_COIN);
    let built = world_sim::commissions::peasant_orders(&mut sites, &mut roster, &prices, 3, &vec![1, 1, 10]);
    assert_eq!(built, 1);
    assert_eq!(sites[1].building_type, BuildingType::PeasantHouse);
    assert_eq!(sites[1].owner, BuildingOwner::Agent(3));
    assert_eq!(sites[1].construction_fund, 3 * (30 * 5000 + 10 * 3000));
    assert_eq!(roster[2].wallet, 1_000 * MILS_PER_COIN - 3 * (30 * 5000 + 10 * 3000));
    let shed = world_sim::commissions::peasant_orders(&mut sites, &mut roster, &prices, 3, &vec![1, 1, 0]);
    assert_eq!(shed, 1);
    assert_eq!(sites[2].building_type, BuildingType::FarmingShed);
    let none = world_sim::commissions::peasant_orders(&mut sites, &mut roster, &prices, 3, &vec![1, 1, 5]);
    assert_eq!(none, 0);
}

#[test]
fn no_building_starts_beyond_the_cap() {
    let prices: Vec<u64> = vec![5000, 3000, 15000, 5000, 10000, 5000, 5000, 5000, 5000, 5000];
    let mut sites: Vec<Building> = (0..8)
        .map(|i| Building::new(BuildingType::Farm, GridCoord::new(100 * i, 0, 0), format!("Farm {}", i), BuildingOwner::Public))
        .collect();
    let mut roster = vec![member(1, SocialClass::Peasant, 1_000 * MILS_PER_COIN)];
    assert_eq!(world_sim::commissions::peasant_orders(&mut sites, &mut roster, &prices, 3, &vec![0]), 0);
    assert_eq!(sites.len(), 8);
    assert_eq!(roster[0].wallet, 1_000 * MILS_PER_COIN);
}
