use vstd::prelude::*;

verus! {

/// The shared structures of the world, in the one order in which their locks may be
/// taken.
#[derive(Debug, Clone, Copy, PartialEq, Eq, Structural)]
pub enum LockTier {
    ResourceLedger,
    Market,
    BuildingRegistry,
    AgentRoster,
    CurrencyLedger,
}

impl LockTier {
    pub open spec fn rank(self) -> int {
        match self {
            LockTier::ResourceLedger => 0,
            LockTier::Market => 1,
            LockTier::BuildingRegistry => 2,
            LockTier::AgentRoster => 3,
            LockTier::CurrencyLedger => 4,
        }
    }

    pub fn order(&self) -> (r: u8)
        ensures
            r == self.rank(),
    {
        match self {
            LockTier::ResourceLedger => 0,
            LockTier::Market => 1,
            LockTier::BuildingRegistry => 2,
            LockTier::AgentRoster => 3,
            LockTier::CurrencyLedger => 4,
        }
    }
}

/// The locks one operation holds, in the order taken. Taking a lock is allowed only
/// above every lock held, so held locks always follow the global order and no two
/// operations can wait on each other.
pub struct LockSet {
    held: Vec<LockTier>,
}

pub open spec fn ascending(s: Seq<LockTier>) -> bool {
    forall|i: int, j: int| 0 <= i < j < s.len() ==> (#[trigger] s[i]).rank() < (#[trigger] s[j]).rank()
}

impl LockSet {
    pub closed spec fn view(&self) -> Seq<LockTier> {
        self.held@
    }

    pub open spec fn wf(&self) -> bool {
        ascending(self@)
    }

    pub fn new() -> (s: LockSet)
        ensures
            s@.len() == 0,
            s.wf(),
    {
        LockSet { held: Vec::new() }
    }

    /// Records taking `tier` if that keeps to the global order; returns whether it did.
    pub fn acquire(&mut self, tier: LockTier) -> (ok: bool)
        requires
            old(self).wf(),
        ensures
            final(self).wf(),
            ok == (old(self)@.len() == 0 || old(self)@.last().rank() < tier.rank()),
            ok ==> final(self)@ == old(self)@.push(tier),
            !ok ==> final(self)@ == old(self)@,
    {
        let n = self.held.len();
        if n == 0 || self.held[n - 1].order() < tier.order() {
            self.held.push(tier);
            true
        } else {
            false
        }
    }

    /// Records releasing the most recently taken lock, if any.
    pub fn release(&mut self) -> (r: Option<LockTier>)
        requires
            old(self).wf(),
        ensures
            final(self).wf(),
            old(self)@.len() == 0 ==> r is None && final(self)@ == old(self)@,
            old(self)@.len() > 0 ==> r == Some(old(self)@.last()) && final(self)@ == old(self)@.drop_last(),
    {
        let r = self.held.pop();
        r
    }

    pub fn holds(&self) -> (n: usize)
        ensures
            n == self@.len(),
    {
        self.held.len()
    }
}

/// Counts slow ticks between wage payments.
pub struct WageClock {
    pub elapsed: u64,
}

/// Slow ticks that must have passed before wages are paid again.
pub const PAY_PERIOD: u64 = 60;

impl WageClock {
    pub fn new() -> (c: WageClock)
        ensures
            c.elapsed == 0,
    {
        WageClock { elapsed: 0 }
    }

    /// Counts one slow tick; returns whether wages are due now, which restarts the count.
    pub fn on_slow_tick(&mut self) -> (due: bool)
        ensures
            due == (old(self).elapsed >= PAY_PERIOD),
            due ==> final(self).elapsed == 0,
            !due ==> final(self).elapsed == old(self).elapsed + 1,
    {
        if self.elapsed >= PAY_PERIOD {
            self.elapsed = 0;
            true
        } else {
            self.elapsed = self.elapsed + 1;
            false
        }
    }
}

} // verus!
