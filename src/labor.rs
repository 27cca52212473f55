use vstd::prelude::*;

use crate::agent::{Job, SimAgent, SocialClass};
use crate::market::MAX_BASE_PRICE;
use crate::market_system::{going_price, total_stock, MarketSystem};
use crate::types::ResourceType;

verus! {

/// Added to a stock before dividing by it, so that empty stores give finite scores.
pub const STOCK_SMOOTHING: u64 = 10;

/// Scores are price per unit of smoothed stock, in thousandths.
pub const SCORE_SCALE: u64 = 1000;

/// Demand score of a resource: its price over its smoothed total stock, scaled.
pub open spec fn score_of(price: int, stock: int) -> int {
    price * SCORE_SCALE / (stock + STOCK_SMOOTHING)
}

/// Demand score of a resource with market price `price` (mils per unit) and total
/// market stock `stock`.
pub fn demand_score(price: u64, stock: u64) -> (s: u64)
    requires
        price <= 3 * MAX_BASE_PRICE,
        stock <= u64::MAX - STOCK_SMOOTHING,
    ensures
        s == score_of(price as int, stock as int),
{
    assert(price * 1000 <= 3_000_000_000_000) by (nonlinear_arith)
        requires
            price <= 3_000_000_000u64,
    ;
    let v = (price * SCORE_SCALE) / (stock + STOCK_SMOOTHING);
    assert(v <= price * 1000) by (nonlinear_arith)
        requires
            v == (price * 1000) / (stock + 10),
            stock + 10 >= 1,
            price >= 0,
    ;
    v
}

/// Target numbers of workers per harvesting job, and the scores they came from.
#[derive(Debug, Clone, Copy, PartialEq, Eq, Structural)]
pub struct LaborPlan {
    pub target_harvesters: u64,
    pub woodcutters: u64,
    pub miners: u64,
    pub farmers: u64,
    pub wood_score: u64,
    pub mining_score: u64,
    pub food_score: u64,
}

pub open spec fn at_least_one(v: int) -> int {
    if v < 1 {
        1
    } else {
        v
    }
}

/// A share of `total` proportional to `score` out of `sum`, at least one.
pub open spec fn share_of(score: int, sum: int, total: int) -> int {
    if sum == 0 {
        1
    } else {
        at_least_one(total * score / sum)
    }
}

/// Where proportional shares overshoot `total`, they are scaled down to it, each
/// still at least one.
pub open spec fn scaled(t: int, tsum: int, total: int) -> int {
    if tsum > total {
        at_least_one(t * total / tsum)
    } else {
        t
    }
}

/// The plan for `target` harvesters split by demand scores: woodcutters follow
/// wood, miners stone and iron together, farmers food.
pub open spec fn plan_for(wood: int, mining: int, food: int, target: int) -> (int, int, int) {
    let sum = wood + mining + food;
    let tw = share_of(wood, sum, target);
    let tm = share_of(mining, sum, target);
    let tf = share_of(food, sum, target);
    let tsum = tw + tm + tf;
    (scaled(tw, tsum, target), scaled(tm, tsum, target), scaled(tf, tsum, target))
}

fn proportional(score: u64, sum: u128, total: u64) -> (t: u64)
    requires
        score <= sum,
    ensures
        t == share_of(score as int, sum as int, total as int),
        t <= if total < 1 { 1 } else { total },
{
    if sum == 0 {
        return 1;
    }
    assert((total as int) * (score as int) <= 18_446_744_073_709_551_615 * 18_446_744_073_709_551_615) by (nonlinear_arith)
        requires
            total <= 18_446_744_073_709_551_615u64,
            score <= 18_446_744_073_709_551_615u64,
            score >= 0,
            total >= 0,
    ;
    let v = (total as u128) * (score as u128) / sum;
    assert(v <= total) by (nonlinear_arith)
        requires
            v == (total as int) * (score as int) / (sum as int),
            score <= sum,
            sum > 0,
            total >= 0,
    ;
    if v < 1 {
        1
    } else {
        v as u64
    }
}

fn scale_down(t: u64, tsum: u64, total: u64) -> (r: u64)
    requires
        t <= tsum,
    ensures
        r == scaled(t as int, tsum as int, total as int),
{
    if tsum > total {
        assert((t as int) * (total as int) <= 18_446_744_073_709_551_615 * 18_446_744_073_709_551_615) by (nonlinear_arith)
            requires
                total <= 18_446_744_073_709_551_615u64,
                t <= 18_446_744_073_709_551_615u64,
                t >= 0,
                total >= 0,
        ;
        let v = (t as u128) * (total as u128) / (tsum as u128);
        assert(v <= total) by (nonlinear_arith)
            requires
                v == (t as int) * (total as int) / (tsum as int),
                t <= tsum,
                tsum > 0,
                total >= 0,
        ;
        if v < 1 {
            1
        } else {
            v as u64
        }
    } else {
        t
    }
}

/// Splits `target_harvesters` across the harvesting jobs in proportion to the demand
/// scores, each job getting at least one worker.
pub fn labor_targets(wood_score: u64, mining_score: u64, food_score: u64, target_harvesters: u64) -> (p: LaborPlan)
    requires
        target_harvesters <= u64::MAX / 4,
    ensures
        (p.woodcutters as int, p.miners as int, p.farmers as int) == plan_for(
            wood_score as int,
            mining_score as int,
            food_score as int,
            target_harvesters as int,
        ),
        p.target_harvesters == target_harvesters,
        p.wood_score == wood_score,
        p.mining_score == mining_score,
        p.food_score == food_score,
{
    let sum: u128 = wood_score as u128 + mining_score as u128 + food_score as u128;
    let tw = proportional(wood_score, sum, target_harvesters);
    let tm = proportional(mining_score, sum, target_harvesters);
    let tf = proportional(food_score, sum, target_harvesters);
    let tsum = tw + tm + tf;
    LaborPlan {
        target_harvesters,
        woodcutters: scale_down(tw, tsum, target_harvesters),
        miners: scale_down(tm, tsum, target_harvesters),
        farmers: scale_down(tf, tsum, target_harvesters),
        wood_score,
        mining_score,
        food_score,
    }
}

/// The harvesting workforce the controller aims for: two fifths of the population.
pub open spec fn harvester_floor(population: int) -> int {
    population * 2 / 5
}

/// Demand score of `r` across the markets of `ms`.
pub open spec fn market_score(ms: Seq<crate::market::Market>, r: ResourceType) -> int {
    score_of(going_price(ms, r), total_stock(ms, r))
}

/// The labor plan for a population of `population` under the going prices and
/// stocks of `markets`: woodcutters follow wood, miners stone and iron, farmers food.
pub fn plan_from_markets(markets: &MarketSystem, population: u64) -> (p: LaborPlan)
    requires
        markets.wf(),
        markets.markets@.len() <= u32::MAX,
        population <= u64::MAX / 2,
    ensures
        p.target_harvesters == harvester_floor(population as int),
        p.wood_score == market_score(markets.markets@, ResourceType::Wood),
        p.mining_score == market_score(markets.markets@, ResourceType::Stone) + market_score(
            markets.markets@,
            ResourceType::Iron,
        ),
        p.food_score == market_score(markets.markets@, ResourceType::Food),
        (p.woodcutters as int, p.miners as int, p.farmers as int) == plan_for(
            p.wood_score as int,
            p.mining_score as int,
            p.food_score as int,
            p.target_harvesters as int,
        ),
{
    proof {
        assert(markets.markets@.len() * (u32::MAX as int) <= (u32::MAX as int) * (u32::MAX as int))
            by (nonlinear_arith)
            requires
                markets.markets@.len() <= u32::MAX,
        ;
    }
    let wood = demand_score(
        markets.get_market_price(ResourceType::Wood),
        markets.total_inventory(ResourceType::Wood),
    );
    let stone = demand_score(
        markets.get_market_price(ResourceType::Stone),
        markets.total_inventory(ResourceType::Stone),
    );
    let iron = demand_score(
        markets.get_market_price(ResourceType::Iron),
        markets.total_inventory(ResourceType::Iron),
    );
    let food = demand_score(
        markets.get_market_price(ResourceType::Food),
        markets.total_inventory(ResourceType::Food),
    );
    let target = population * 2 / 5;
    labor_targets(wood, stone + iron, food, target)
}

/// Runs the controller on `roster` with the plan the markets call for.
pub fn rebalance_from_markets(roster: &mut Vec<SimAgent>, markets: &MarketSystem) -> (p: LaborPlan)
    requires
        markets.wf(),
        markets.markets@.len() <= u32::MAX,
        old(roster)@.len() <= u64::MAX / 2,
    ensures
        p.target_harvesters == harvester_floor(old(roster)@.len() as int),
        rebalanced(old(roster)@, final(roster)@, p),
{
    let p = plan_from_markets(markets, roster.len() as u64);
    rebalance_labor(roster, &p);
    p
}

/// Roles the controller never reassigns.
pub open spec fn protected(c: SocialClass) -> bool {
    c is King || c is Noble || c is Knight || c is Soldier
}

/// An agent the controller may turn into a harvester.
pub open spec fn eligible(a: SimAgent) -> bool {
    (a.job is Builder || a.job is Unemployed) && !protected(a.social_class)
}

/// Workers still wanted, and the numbers of woodcutters, miners and farmers so far.
pub type LaborTally = (int, int, int, int);

/// The job given to the next converted agent, and the tally after it.
pub open spec fn pick(t: LaborTally, p: LaborPlan) -> (Job, LaborTally) {
    let (need, w, m, f) = t;
    if w < p.woodcutters {
        (Job::Woodcutter, (need - 1, w + 1, m, f))
    } else if m < p.miners {
        (Job::Miner, (need - 1, w, m + 1, f))
    } else if f < p.farmers {
        (Job::Farmer, (need - 1, w, m, f + 1))
    } else if p.wood_score >= p.mining_score && p.wood_score >= p.food_score {
        (Job::Woodcutter, (need - 1, w + 1, m, f))
    } else if p.mining_score >= p.food_score {
        (Job::Miner, (need - 1, w, m + 1, f))
    } else {
        (Job::Farmer, (need - 1, w, m, f + 1))
    }
}

/// Whether the agent at `k` is converted, given the tally before it.
pub open spec fn converts(t: LaborTally, a: SimAgent) -> bool {
    t.0 > 0 && eligible(a)
}

/// The tally after the controller has passed over the first `k` agents of `s`.
pub open spec fn tally_after(s: Seq<SimAgent>, k: int, init: LaborTally, p: LaborPlan) -> LaborTally
    decreases k,
{
    if k <= 0 {
        init
    } else {
        let t = tally_after(s, k - 1, init, p);
        if converts(t, s[k - 1]) {
            pick(t, p).1
        } else {
            t
        }
    }
}

/// Number of agents among the first `k` of `s` whose job satisfies `f`.
pub open spec fn count_upto(s: Seq<SimAgent>, k: int, f: spec_fn(Job) -> bool) -> int
    decreases k,
{
    if k <= 0 {
        0
    } else {
        count_upto(s, k - 1, f) + if f(s[k - 1].job) {
            1int
        } else {
            0
        }
    }
}

pub open spec fn harvesting() -> spec_fn(Job) -> bool {
    |j: Job| j.harvests()
}

pub open spec fn is_job(target: Job) -> spec_fn(Job) -> bool {
    |j: Job| j == target
}

/// The tally the controller starts from on roster `s`.
pub open spec fn initial_tally(s: Seq<SimAgent>, p: LaborPlan) -> LaborTally {
    let h = count_upto(s, s.len() as int, harvesting());
    (
        if h < p.target_harvesters {
            p.target_harvesters - h
        } else {
            0
        },
        count_upto(s, s.len() as int, is_job(Job::Woodcutter)),
        count_upto(s, s.len() as int, is_job(Job::Miner)),
        count_upto(s, s.len() as int, is_job(Job::Farmer)),
    )
}

/// The job the agent at `k` of `s` holds after the controller has run.
pub open spec fn job_after(s: Seq<SimAgent>, k: int, p: LaborPlan) -> Job {
    let t = tally_after(s, k, initial_tally(s, p), p);
    if converts(t, s[k]) {
        pick(t, p).0
    } else {
        s[k].job
    }
}

/// `a` and `b` are the same agent but for its job.
pub open spec fn same_but_job(a: SimAgent, b: SimAgent) -> bool {
    &&& a.id == b.id
    &&& a.name == b.name
    &&& a.position == b.position
    &&& a.age == b.age
    &&& a.state == b.state
    &&& a.social_class == b.social_class
    &&& a.leader_id == b.leader_id
    &&& a.wallet == b.wallet
    &&& a.inventory == b.inventory
    &&& a.needs == b.needs
    &&& a.carrying_resources == b.carrying_resources
}

/// `after` is what the controller makes of roster `before` under plan `p`.
pub open spec fn rebalanced(before: Seq<SimAgent>, after: Seq<SimAgent>, p: LaborPlan) -> bool {
    &&& after.len() == before.len()
    &&& forall|k: int|
        0 <= k < before.len() ==> same_but_job(#[trigger] after[k], before[k]) && after[k].job
            == job_after(before, k, p)
}

fn count_jobs(roster: &Vec<SimAgent>) -> (c: (u64, u64, u64, u64))
    requires
        roster@.len() <= u64::MAX,
    ensures
        c.0 == count_upto(roster@, roster@.len() as int, harvesting()),
        c.1 == count_upto(roster@, roster@.len() as int, is_job(Job::Woodcutter)),
        c.2 == count_upto(roster@, roster@.len() as int, is_job(Job::Miner)),
        c.3 == count_upto(roster@, roster@.len() as int, is_job(Job::Farmer)),
        c.0 <= roster@.len(),
        c.1 <= roster@.len(),
        c.2 <= roster@.len(),
        c.3 <= roster@.len(),
{
    let mut h: u64 = 0;
    let mut w: u64 = 0;
    let mut m: u64 = 0;
    let mut f: u64 = 0;
    let mut i: usize = 0;
    while i < roster.len()
        invariant
            i <= roster@.len() <= u64::MAX,
            h == count_upto(roster@, i as int, harvesting()),
            w == count_upto(roster@, i as int, is_job(Job::Woodcutter)),
            m == count_upto(roster@, i as int, is_job(Job::Miner)),
            f == count_upto(roster@, i as int, is_job(Job::Farmer)),
            h <= i && w <= i && m <= i && f <= i,
        decreases roster@.len() - i,
    {
        let j = roster[i].job;
        if j.is_harvester() {
            h += 1;
        }
        match j {
            Job::Woodcutter => {
                w += 1;
            },
            Job::Miner => {
                m += 1;
            },
            Job::Farmer => {
                f += 1;
            },
            _ => {},
        }
        i += 1;
    }
    (h, w, m, f)
}

fn is_protected(c: SocialClass) -> (r: bool)
    ensures
        r == protected(c),
{
    matches!(c, SocialClass::King | SocialClass::Noble | SocialClass::Knight | SocialClass::Soldier)
}

/// Converts eligible agents (builders and the unemployed outside protected roles), in
/// roster order, into harvesters until the roster holds `plan.target_harvesters` of
/// them or no eligible agent is left. Each converted agent takes the first job still
/// under its target (woodcutter, miner, farmer), or, with every target met, the job
/// with the highest demand score. Nothing else about any agent changes.
pub fn rebalance_labor(roster: &mut Vec<SimAgent>, plan: &LaborPlan)
    requires
        old(roster)@.len() <= u64::MAX,
    ensures
        rebalanced(old(roster)@, final(roster)@, *plan),
{
    let (h, w, m, f) = count_jobs(roster);
    let mut need: u64 = if h < plan.target_harvesters {
        plan.target_harvesters - h
    } else {
        0
    };
    let mut cw: u128 = w as u128;
    let mut cm: u128 = m as u128;
    let mut cf: u128 = f as u128;
    let ghost init = initial_tally(old(roster)@, *plan);
    let mut i: usize = 0;
    while i < roster.len()
        invariant
            roster@.len() == old(roster)@.len(),
            i <= roster@.len(),
            init == initial_tally(old(roster)@, *plan),
            (need as int, cw as int, cm as int, cf as int) == tally_after(old(roster)@, i as int, init, *plan),
            cw <= w + i && cm <= m + i && cf <= f + i,
            w <= u64::MAX && m <= u64::MAX && f <= u64::MAX && i <= u64::MAX,
            forall|k: int| i <= k < roster@.len() ==> #[trigger] roster@[k] == old(roster)@[k],
            forall|k: int|
                0 <= k < i ==> same_but_job(#[trigger] roster@[k], old(roster)@[k]) && roster@[k].job
                    == job_after(old(roster)@, k, *plan),
        decreases roster@.len() - i,
    {
        let a_job = roster[i].job;
        let elig = matches!(a_job, Job::Builder | Job::Unemployed) && !is_protected(roster[i].social_class);
        if need > 0 && elig {
            let new_job = if cw < plan.woodcutters as u128 {
                cw = cw + 1;
                Job::Woodcutter
            } else if cm < plan.miners as u128 {
                cm = cm + 1;
                Job::Miner
            } else if cf < plan.farmers as u128 {
                cf = cf + 1;
                Job::Farmer
            } else if plan.wood_score >= plan.mining_score && plan.wood_score >= plan.food_score {
                cw = cw + 1;
                Job::Woodcutter
            } else if plan.mining_score >= plan.food_score {
                cm = cm + 1;
                Job::Miner
            } else {
                cf = cf + 1;
                Job::Farmer
            };
            roster[i].job = new_job;
            need = need - 1;
        }
        i += 1;
    }
}

proof fn lemma_need_nonneg(s: Seq<SimAgent>, k: int, init: LaborTally, p: LaborPlan)
    requires
        k >= 0,
        init.0 >= 0,
    ensures
        tally_after(s, k, init, p).0 >= 0,
    decreases k,
{
    if k > 0 {
        lemma_need_nonneg(s, k - 1, init, p);
    }
}

proof fn lemma_need_monotone(s: Seq<SimAgent>, j: int, k: int, init: LaborTally, p: LaborPlan)
    requires
        0 <= j <= k,
        init.0 >= 0,
    ensures
        0 <= tally_after(s, k, init, p).0 <= tally_after(s, j, init, p).0,
    decreases k,
{
    lemma_need_nonneg(s, k, init, p);
    if k > j {
        lemma_need_monotone(s, j, k - 1, init, p);
    }
}

proof fn lemma_harvesters_grow(a: Seq<SimAgent>, b: Seq<SimAgent>, k: int, p: LaborPlan)
    requires
        rebalanced(a, b, p),
        0 <= k <= a.len(),
    ensures
        count_upto(b, k, harvesting()) == count_upto(a, k, harvesting()) + initial_tally(a, p).0
            - tally_after(a, k, initial_tally(a, p), p).0,
    decreases k,
{
    if k > 0 {
        lemma_harvesters_grow(a, b, k - 1, p);
        assert(same_but_job(b[k - 1], a[k - 1]));
    }
}

proof fn lemma_exhausted(a: Seq<SimAgent>, b: Seq<SimAgent>, p: LaborPlan)
    requires
        rebalanced(a, b, p),
        tally_after(a, a.len() as int, initial_tally(a, p), p).0 > 0,
    ensures
        forall|k: int| 0 <= k < b.len() ==> !eligible(#[trigger] b[k]),
{
    let init = initial_tally(a, p);
    assert forall|k: int| 0 <= k < b.len() implies !eligible(#[trigger] b[k]) by {
        lemma_need_monotone(a, k, a.len() as int, init, p);
        assert(same_but_job(b[k], a[k]));
    }
}

proof fn lemma_idle_pass(s: Seq<SimAgent>, k: int, p: LaborPlan)
    requires
        0 <= k <= s.len(),
        initial_tally(s, p).0 == 0 || forall|i: int| 0 <= i < s.len() ==> !eligible(#[trigger] s[i]),
    ensures
        tally_after(s, k, initial_tally(s, p), p) == initial_tally(s, p),
    decreases k,
{
    if k > 0 {
        lemma_idle_pass(s, k - 1, p);
    }
}

/// Running the controller a second time under the same plan changes no job: the first
/// run either reached the harvesting target or converted every eligible agent.
pub proof fn lemma_rebalance_idempotent(
    a: Seq<SimAgent>,
    b: Seq<SimAgent>,
    c: Seq<SimAgent>,
    p: LaborPlan,
)
    requires
        rebalanced(a, b, p),
        rebalanced(b, c, p),
    ensures
        forall|k: int| 0 <= k < c.len() ==> #[trigger] c[k].job == b[k].job,
{
    let n = a.len() as int;
    let end = tally_after(a, n, initial_tally(a, p), p);
    lemma_need_monotone(a, 0, n, initial_tally(a, p), p);
    if end.0 > 0 {
        lemma_exhausted(a, b, p);
    } else {
        lemma_harvesters_grow(a, b, n, p);
    }
    assert forall|k: int| 0 <= k < c.len() implies #[trigger] c[k].job == b[k].job by {
        lemma_idle_pass(b, k, p);
    }
}

} // verus!
