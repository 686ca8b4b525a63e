//! Platform-level interrupt controller: per-source priorities,
//! per-context enable bits and thresholds, and the claim/complete
//! protocol, together with the documented MMIO offsets of each
//! register group.
//!
//! The architectural state (priority, enable, threshold, pending and
//! in-service bits) is held here as owned data with exact contracts;
//! the unverified shell performs the same operations as volatile
//! 32-bit accesses at the addresses the `*_ptr` functions compute. A
//! context is one (hart, privilege level) pair, numbered
//! `hart_id * 2 + privilege`.

use vstd::prelude::*;

verus! {

/// Byte offset of the per-source priority array (4 bytes per source).
pub const INTR_PRIORITY_BASE: usize = 0x000000;
/// Byte offset of the per-context enable bitmask block (0x80 bytes per
/// context, 32 sources per 4-byte word).
pub const INTR_ENABLE_BASE: usize = 0x002000;
/// Byte offset of the per-context priority threshold (0x1000 bytes per
/// context).
pub const PRIORITY_THRESHOLD_BASE: usize = 0x200000;
/// Byte offset of the per-context claim/complete register.
pub const INTR_CLAIM_BASE: usize = 0x200004;

/// Interrupt sources the controller arbitrates; id 0 means "none".
pub const PLIC_SOURCE_NUM: usize = 1024;
/// Contexts the model provides for: two privilege levels on each of
/// sixteen harts.
pub const PLIC_CONTEXT_NUM: usize = 32;

/// Largest byte offset any register of the modeled contexts reaches.
pub const PLIC_SPAN: usize = 0x220000;

/// The privilege level half of a context id.
#[derive(Copy, Clone, PartialEq, Eq, Debug, Structural)]
pub enum TargetPriority {
    Machine,
    Supervisor,
}

impl TargetPriority {
    pub open spec fn spec_index(self) -> nat {
        match self {
            TargetPriority::Machine => 0,
            TargetPriority::Supervisor => 1,
        }
    }

    pub fn index(self) -> (r: usize)
        ensures
            r == self.spec_index(),
    {
        match self {
            TargetPriority::Machine => 0,
            TargetPriority::Supervisor => 1,
        }
    }

    /// How many privilege levels each hart exposes to the controller.
    pub fn supported_number() -> (r: usize)
        ensures
            r == 2,
    {
        2
    }
}

pub struct PLIC {
    base_addr: usize,
    priorities: Vec<u32>,
    enables: Vec<bool>,
    thresholds: Vec<u32>,
    pending: Vec<bool>,
    serving: Vec<bool>,
}

impl PLIC {
    pub closed spec fn base(&self) -> nat {
        self.base_addr as nat
    }

    /// Priority of each source; 0 disables the source outright.
    pub closed spec fn prio(&self) -> Seq<u32> {
        self.priorities@
    }

    /// Enable bit of source `s` for context `c`, at index `c * 1024 + s`.
    pub closed spec fn enab(&self) -> Seq<bool> {
        self.enables@
    }

    /// Threshold of each context; sources with priority at or below it
    /// are masked.
    pub closed spec fn thresh(&self) -> Seq<u32> {
        self.thresholds@
    }

    /// A source's gateway has forwarded an interrupt not yet claimed.
    pub closed spec fn pend(&self) -> Seq<bool> {
        self.pending@
    }

    /// A source was claimed and awaits completion; its gateway holds
    /// further interrupts back until then.
    pub closed spec fn serv(&self) -> Seq<bool> {
        self.serving@
    }

    pub closed spec fn wf(&self) -> bool {
        &&& self.base_addr + PLIC_SPAN <= usize::MAX
        &&& self.prio().len() == PLIC_SOURCE_NUM
        &&& self.enab().len() == PLIC_CONTEXT_NUM * PLIC_SOURCE_NUM
        &&& self.thresh().len() == PLIC_CONTEXT_NUM
        &&& self.pend().len() == PLIC_SOURCE_NUM
        &&& self.serv().len() == PLIC_SOURCE_NUM
    }

    /// A controller fresh out of reset: everything zero, nothing
    /// pending, nothing in service.
    pub fn new(base_addr: usize) -> (r: Self)
        requires
            base_addr + PLIC_SPAN <= usize::MAX,
        ensures
            r.wf(),
            r.base() == base_addr,
            forall|s: int| 0 <= s < PLIC_SOURCE_NUM ==> #[trigger] r.prio()[s] == 0,
            forall|e: int| 0 <= e < PLIC_CONTEXT_NUM * PLIC_SOURCE_NUM ==> !(#[trigger] r.enab()[e]),
            forall|c: int| 0 <= c < PLIC_CONTEXT_NUM ==> #[trigger] r.thresh()[c] == 0,
            forall|s: int| 0 <= s < PLIC_SOURCE_NUM ==> !(#[trigger] r.pend()[s]),
            forall|s: int| 0 <= s < PLIC_SOURCE_NUM ==> !(#[trigger] r.serv()[s]),
    {
        PLIC {
            base_addr,
            priorities: zero_words(PLIC_SOURCE_NUM),
            enables: false_flags(PLIC_CONTEXT_NUM * PLIC_SOURCE_NUM),
            thresholds: zero_words(PLIC_CONTEXT_NUM),
            pending: false_flags(PLIC_SOURCE_NUM),
            serving: false_flags(PLIC_SOURCE_NUM),
        }
    }

    /// Address of the priority register of `intr_id`.
    pub fn intr_priority_ptr(&self, intr_id: usize) -> (r: usize)
        requires
            self.wf(),
            intr_id < PLIC_SOURCE_NUM,
        ensures
            r == self.base() + INTR_PRIORITY_BASE + intr_id * 4,
    {
        self.base_addr + INTR_PRIORITY_BASE + intr_id * 4
    }

    /// Linear context id of a hart and privilege level.
    pub fn intr_target(hart_id: usize, target_priority: TargetPriority) -> (r: usize)
        requires
            hart_id * 2 + 1 <= usize::MAX,
        ensures
            r == hart_id * 2 + target_priority.spec_index(),
    {
        let priority_num = TargetPriority::supported_number();
        hart_id * priority_num + target_priority.index()
    }

    /// Address of the enable word holding `intr_id`'s bit for the
    /// context, and the bit's position in that word.
    pub fn intr_enable_ptr(
        &self,
        hart_id: usize,
        target_priority: TargetPriority,
        intr_id: usize,
    ) -> (r: (usize, usize))
        requires
            self.wf(),
            hart_id * 2 + target_priority.spec_index() < PLIC_CONTEXT_NUM,
            intr_id < PLIC_SOURCE_NUM,
        ensures
            r.0 == self.base() + INTR_ENABLE_BASE + 0x80 * (hart_id * 2
                + target_priority.spec_index()) + 4 * (intr_id / 32),
            r.1 == intr_id % 32,
    {
        let id = Self::intr_target(hart_id, target_priority);
        let reg_id = intr_id / 32;
        let reg_shift = intr_id % 32;
        (self.base_addr + INTR_ENABLE_BASE + 0x80 * id + 0x4 * reg_id, reg_shift)
    }

    /// Address of the context's priority threshold register.
    pub fn priority_threshold_ptr(&self, hart_id: usize, target_priority: TargetPriority) -> (r:
        usize)
        requires
            self.wf(),
            hart_id * 2 + target_priority.spec_index() < PLIC_CONTEXT_NUM,
        ensures
            r == self.base() + PRIORITY_THRESHOLD_BASE + 0x1000 * (hart_id * 2
                + target_priority.spec_index()),
    {
        let id = Self::intr_target(hart_id, target_priority);
        self.base_addr + PRIORITY_THRESHOLD_BASE + 0x1000 * id
    }

    /// Address of the context's claim/complete register.
    pub fn intr_claim_ptr(&self, hart_id: usize, target_priority: TargetPriority) -> (r: usize)
        requires
            self.wf(),
            hart_id * 2 + target_priority.spec_index() < PLIC_CONTEXT_NUM,
        ensures
            r == self.base() + INTR_CLAIM_BASE + 0x1000 * (hart_id * 2
                + target_priority.spec_index()),
    {
        let id = Self::intr_target(hart_id, target_priority);
        self.base_addr + INTR_CLAIM_BASE + 0x1000 * id
    }

    /// The interrupt priority for each interrupt source.
    pub fn set_intr_priority(&mut self, intr_id: usize, priority: u32)
        requires
            old(self).wf(),
            intr_id < PLIC_SOURCE_NUM,
        ensures
            final(self).wf(),
            final(self).base() == old(self).base(),
            final(self).prio() == old(self).prio().update(intr_id as int, priority),
            final(self).enab() == old(self).enab(),
            final(self).thresh() == old(self).thresh(),
            final(self).pend() == old(self).pend(),
            final(self).serv() == old(self).serv(),
    {
        self.priorities[intr_id] = priority;
    }

    /// The interrupt priority for each interrupt source.
    pub fn get_intr_priority(&mut self, intr_id: usize) -> (r: u32)
        requires
            old(self).wf(),
            intr_id < PLIC_SOURCE_NUM,
        ensures
            *final(self) == *old(self),
            r == old(self).prio()[intr_id as int],
    {
        self.priorities[intr_id]
    }

    /// The enablement of interrupt source of each context.
    pub fn set_intr_enable(
        &mut self,
        hart_id: usize,
        target_priority: TargetPriority,
        intr_id: usize,
    )
        requires
            old(self).wf(),
            hart_id * 2 + target_priority.spec_index() < PLIC_CONTEXT_NUM,
            intr_id < PLIC_SOURCE_NUM,
        ensures
            final(self).wf(),
            final(self).base() == old(self).base(),
            final(self).enab() == old(self).enab().update(
                (hart_id * 2 + target_priority.spec_index()) * PLIC_SOURCE_NUM + intr_id,
                true,
            ),
            final(self).prio() == old(self).prio(),
            final(self).thresh() == old(self).thresh(),
            final(self).pend() == old(self).pend(),
            final(self).serv() == old(self).serv(),
    {
        let id = Self::intr_target(hart_id, target_priority);
        proof {
            assert(id * PLIC_SOURCE_NUM + intr_id < PLIC_CONTEXT_NUM * PLIC_SOURCE_NUM)
                by (nonlinear_arith)
                requires
                    id < PLIC_CONTEXT_NUM,
                    intr_id < PLIC_SOURCE_NUM,
                    PLIC_CONTEXT_NUM == 32,
                    PLIC_SOURCE_NUM == 1024,
            ;
        }
        self.enables[id * PLIC_SOURCE_NUM + intr_id] = true;
    }

    /// The enablement of interrupt source of each context.
    pub fn set_intr_disable(
        &mut self,
        hart_id: usize,
        target_priority: TargetPriority,
        intr_id: usize,
    )
        requires
            old(self).wf(),
            hart_id * 2 + target_priority.spec_index() < PLIC_CONTEXT_NUM,
            intr_id < PLIC_SOURCE_NUM,
        ensures
            final(self).wf(),
            final(self).base() == old(self).base(),
            final(self).enab() == old(self).enab().update(
                (hart_id * 2 + target_priority.spec_index()) * PLIC_SOURCE_NUM + intr_id,
                false,
            ),
            final(self).prio() == old(self).prio(),
            final(self).thresh() == old(self).thresh(),
            final(self).pend() == old(self).pend(),
            final(self).serv() == old(self).serv(),
    {
        let id = Self::intr_target(hart_id, target_priority);
        proof {
            assert(id * PLIC_SOURCE_NUM + intr_id < PLIC_CONTEXT_NUM * PLIC_SOURCE_NUM)
                by (nonlinear_arith)
                requires
                    id < PLIC_CONTEXT_NUM,
                    intr_id < PLIC_SOURCE_NUM,
                    PLIC_CONTEXT_NUM == 32,
                    PLIC_SOURCE_NUM == 1024,
            ;
        }
        self.enables[id * PLIC_SOURCE_NUM + intr_id] = false;
    }

    /// The interrupt priority threshold of each context.
    pub fn set_target_threshold(
        &mut self,
        hart_id: usize,
        target_priority: TargetPriority,
        threshold: u32,
    )
        requires
            old(self).wf(),
            hart_id * 2 + target_priority.spec_index() < PLIC_CONTEXT_NUM,
        ensures
            final(self).wf(),
            final(self).base() == old(self).base(),
            final(self).thresh() == old(self).thresh().update(
                hart_id * 2 + target_priority.spec_index(),
                threshold,
            ),
            final(self).prio() == old(self).prio(),
            final(self).enab() == old(self).enab(),
            final(self).pend() == old(self).pend(),
            final(self).serv() == old(self).serv(),
    {
        let id = Self::intr_target(hart_id, target_priority);
        self.thresholds[id] = threshold;
    }

    /// The interrupt priority threshold of each context.
    pub fn get_target_threshold(&mut self, hart_id: usize, target_priority: TargetPriority) -> (r:
        u32)
        requires
            old(self).wf(),
            hart_id * 2 + target_priority.spec_index() < PLIC_CONTEXT_NUM,
        ensures
            *final(self) == *old(self),
            r == old(self).thresh()[(hart_id * 2 + target_priority.spec_index()) as int],
    {
        let id = Self::intr_target(hart_id, target_priority);
        self.thresholds[id]
    }

    /// A source's gateway forwards an interrupt: the source goes
    /// pending unless it is still in service from an earlier claim.
    pub fn raise(&mut self, intr_id: usize)
        requires
            old(self).wf(),
            1 <= intr_id < PLIC_SOURCE_NUM,
        ensures
            final(self).wf(),
            final(self).base() == old(self).base(),
            final(self).pend() == (if old(self).serv()[intr_id as int] {
                old(self).pend()
            } else {
                old(self).pend().update(intr_id as int, true)
            }),
            final(self).prio() == old(self).prio(),
            final(self).enab() == old(self).enab(),
            final(self).thresh() == old(self).thresh(),
            final(self).serv() == old(self).serv(),
    {
        if !self.serving[intr_id] {
            self.pending[intr_id] = true;
        }
    }

    /// Source `s` can interrupt context `c`: pending, enabled for the
    /// context, and prioritized above the context's threshold.
    pub open spec fn eligible(self, c: nat, s: nat) -> bool {
        &&& 1 <= s < PLIC_SOURCE_NUM
        &&& self.pend()[s as int]
        &&& self.enab()[(c * PLIC_SOURCE_NUM + s) as int]
        &&& self.prio()[s as int] > self.thresh()[c as int]
    }

    /// The source a claim on context `c` picks among sources below
    /// `n`: the eligible source of highest priority, lowest id on a
    /// tie; 0 when none is eligible.
    pub open spec fn best_source(self, c: nat, n: nat) -> nat
        decreases n,
    {
        if n <= 1 {
            0
        } else {
            let prev = self.best_source(c, (n - 1) as nat);
            let s = (n - 1) as nat;
            if self.eligible(c, s) && (prev == 0 || self.prio()[s as int] > self.prio()[prev as int]) {
                s
            } else {
                prev
            }
        }
    }

    /// What `best_source` picks really is the arbitration the
    /// controller promises: 0 exactly when no source is eligible for
    /// the context, and otherwise an eligible source whose priority no
    /// other eligible source beats, taking the lowest id on a tie.
    pub proof fn lemma_best_source_sound(self, c: nat, n: nat)
        requires
            n <= PLIC_SOURCE_NUM,
        ensures
            ({
                let r = self.best_source(c, n);
                &&& (r == 0 ==> forall|s: nat| s < n ==> !self.eligible(c, s))
                &&& (r != 0 ==> self.eligible(c, r) && r < n)
                &&& (r != 0 ==> forall|s: nat|
                    s < n && self.eligible(c, s) ==> self.prio()[s as int]
                        <= self.prio()[r as int])
                &&& (r != 0 ==> forall|s: nat|
                    s < n && self.eligible(c, s) && self.prio()[s as int] == self.prio()[r as int]
                        ==> r <= s)
            }),
        decreases n,
    {
        if n > 1 {
            self.lemma_best_source_sound(c, (n - 1) as nat);
        }
    }

    /// Atomically takes the highest-priority pending enabled source
    /// for the context: the source leaves pending and goes into
    /// service. 0 means nothing was eligible.
    pub fn claim(&mut self, hart_id: usize, target_priority: TargetPriority) -> (r: u32)
        requires
            old(self).wf(),
            hart_id * 2 + target_priority.spec_index() < PLIC_CONTEXT_NUM,
        ensures
            final(self).wf(),
            final(self).base() == old(self).base(),
            r == old(self).best_source(
                (hart_id * 2 + target_priority.spec_index()) as nat,
                PLIC_SOURCE_NUM as nat,
            ),
            final(self).pend() == (if r == 0 {
                old(self).pend()
            } else {
                old(self).pend().update(r as int, false)
            }),
            final(self).serv() == (if r == 0 {
                old(self).serv()
            } else {
                old(self).serv().update(r as int, true)
            }),
            final(self).prio() == old(self).prio(),
            final(self).enab() == old(self).enab(),
            final(self).thresh() == old(self).thresh(),
    {
        let id = Self::intr_target(hart_id, target_priority);
        let ghost c = id as nat;
        let mut best: usize = 0;
        let mut s: usize = 1;
        while s < PLIC_SOURCE_NUM
            invariant
                self.wf(),
                id < PLIC_CONTEXT_NUM,
                c == id as nat,
                1 <= s <= PLIC_SOURCE_NUM,
                best == self.best_source(c, s as nat),
                best < PLIC_SOURCE_NUM,
            decreases PLIC_SOURCE_NUM - s,
        {
            proof {
                assert(id * PLIC_SOURCE_NUM + s < PLIC_CONTEXT_NUM * PLIC_SOURCE_NUM)
                    by (nonlinear_arith)
                    requires
                        id < PLIC_CONTEXT_NUM,
                        s < PLIC_SOURCE_NUM,
                        PLIC_CONTEXT_NUM == 32,
                        PLIC_SOURCE_NUM == 1024,
                ;
            }
            let ok = self.pending[s] && self.enables[id * PLIC_SOURCE_NUM + s]
                && self.priorities[s] > self.thresholds[id];
            if ok && (best == 0 || self.priorities[s] > self.priorities[best]) {
                best = s;
            }
            s = s + 1;
        }
        if best > 0 {
            self.pending[best] = false;
            self.serving[best] = true;
        }
        best as u32
    }

    /// Re-arms a source after servicing: the gateway may forward its
    /// next interrupt. A source never completed stays silent forever.
    pub fn complete(&mut self, hart_id: usize, target_priority: TargetPriority, intr_id: u32)
        requires
            old(self).wf(),
            hart_id * 2 + target_priority.spec_index() < PLIC_CONTEXT_NUM,
            intr_id < PLIC_SOURCE_NUM,
        ensures
            final(self).wf(),
            final(self).base() == old(self).base(),
            final(self).serv() == old(self).serv().update(intr_id as int, false),
            final(self).prio() == old(self).prio(),
            final(self).enab() == old(self).enab(),
            final(self).thresh() == old(self).thresh(),
            final(self).pend() == old(self).pend(),
    {
        self.serving[intr_id as usize] = false;
    }
}

/// A vector of `n` zeroed 32-bit registers.
fn zero_words(n: usize) -> (v: Vec<u32>)
    ensures
        v@.len() == n,
        forall|i: int| 0 <= i < n ==> #[trigger] v@[i] == 0,
{
    let mut v: Vec<u32> = Vec::new();
    let mut i: usize = 0;
    while i < n
        invariant
            i <= n,
            v@.len() == i,
            forall|k: int| 0 <= k < i ==> #[trigger] v@[k] == 0,
        decreases n - i,
    {
        v.push(0);
        i = i + 1;
    }
    v
}

/// A vector of `n` cleared flags.
fn false_flags(n: usize) -> (v: Vec<bool>)
    ensures
        v@.len() == n,
        forall|i: int| 0 <= i < n ==> !(#[trigger] v@[i]),
{
    let mut v: Vec<bool> = Vec::new();
    let mut i: usize = 0;
    while i < n
        invariant
            i <= n,
            v@.len() == i,
            forall|k: int| 0 <= k < i ==> !(#[trigger] v@[k]),
        decreases n - i,
    {
        v.push(false);
        i = i + 1;
    }
    v
}

} // verus!
