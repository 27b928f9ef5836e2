//! Faults that become known only after the frame that caused them. Where an error scope
//! resolves later than its creation call, its outcome is parked in a log, and what is drained
//! from there is folded into one report that the host takes once per frame.

use vstd::prelude::*;

use crate::error::BlurError;

verus! {

/// The kind of resource a deferred fault names. Diagnostic only: whichever it is, the presented
/// frost is not to be trusted.
#[derive(Clone, Copy, Debug, PartialEq, Eq, Structural)]
pub enum FaultSlot {
    /// A Gaussian scratch chain.
    Scratch,
    /// A dual-Kawase pyramid.
    Pyramid,
    /// A composite pipeline.
    CompositePipeline,
    /// A uniform buffer.
    UniformBuffer,
    /// A bind group.
    BindGroup,
    /// The adapter's offscreen intermediate.
    Intermediate,
}

/// What the host reads once per frame: the latest fault, and how many there were since it last
/// looked.
#[derive(Debug, PartialEq)]
pub struct FaultReport {
    /// The latest fault.
    pub error: BlurError,
    /// The kind of resource it named.
    pub slot: FaultSlot,
    /// How many faults were folded in, up to what the counter holds.
    pub occurrences: u32,
}

/// One parked outcome of an error scope.
#[derive(Debug, PartialEq, Eq)]
pub struct PendingFault {
    /// The kind of resource the scope was around.
    pub slot_kind: FaultSlot,
    /// The generation of the backend when the resource was created.
    pub generation: u64,
    /// The backend's description.
    pub message: String,
}

/// Parked outcomes, and the report folded from drained ones.
#[derive(Debug)]
pub struct FaultLog {
    /// What has been parked and not drained, oldest first.
    pub pending: Vec<PendingFault>,
    /// What the host has yet to take.
    pub report: Option<FaultReport>,
}

/// The items whose choice is `wanted`, in order.
pub open spec fn picked(items: Seq<PendingFault>, choices: Seq<bool>, wanted: bool) -> Seq<PendingFault>
    decreases items.len(),
{
    if items.len() == 0 {
        seq![]
    } else if choices[items.len() - 1] == wanted {
        picked(items.drop_last(), choices, wanted).push(items.last())
    } else {
        picked(items.drop_last(), choices, wanted)
    }
}

/// Whether `choices` are what the predicate answered, item by item.
pub open spec fn answered<P: Fn(&PendingFault) -> bool>(
    pred: P,
    items: Seq<PendingFault>,
    choices: Seq<bool>,
) -> bool {
    choices.len() == items.len() && forall|i: int|
        0 <= i < items.len() ==> call_ensures(pred, (&(#[trigger] items[i]),), choices[i])
}

/// Choices past the items do not matter.
proof fn lemma_picked_ignores_tail(items: Seq<PendingFault>, a: Seq<bool>, b: Seq<bool>, wanted: bool)
    requires
        a.len() >= items.len(),
        b.len() >= items.len(),
        forall|i: int| 0 <= i < items.len() ==> a[i] == b[i],
    ensures
        picked(items, a, wanted) == picked(items, b, wanted),
    decreases items.len(),
{
    if items.len() > 0 {
        lemma_picked_ignores_tail(items.drop_last(), a, b, wanted);
    }
}

/// Draining loses nothing and invents nothing: what is drained and what stays add up to what
/// was there.
pub proof fn lemma_partition_is_complete(items: Seq<PendingFault>, choices: Seq<bool>)
    requires
        choices.len() >= items.len(),
    ensures
        picked(items, choices, true).to_multiset().add(picked(items, choices, false).to_multiset())
            =~= items.to_multiset(),
        picked(items, choices, true).len() + picked(items, choices, false).len() == items.len(),
    decreases items.len(),
{
    broadcast use vstd::seq_lib::group_to_multiset_ensures;

    if items.len() > 0 {
        let rest = items.drop_last();
        lemma_partition_is_complete(rest, choices);
        assert(items =~= rest.push(items.last()));
    } else {
        assert(items =~= Seq::empty());
    }
}

impl Default for FaultLog {
    /// An empty log.
    fn default() -> (r: FaultLog)
        ensures
            r.pending@.len() == 0,
            r.report is None,
    {
        FaultLog { pending: Vec::new(), report: None }
    }
}

impl FaultLog {
    /// Parks one outcome for the next drain.
    pub fn record(&mut self, fault: PendingFault)
        ensures
            final(self).pending@ == old(self).pending@.push(fault),
            final(self).report == old(self).report,
    {
        self.pending.push(fault);
    }

    /// Removes and returns every parked fault that the predicate picks; the others stay parked,
    /// in order.
    pub fn drain_where<P: Fn(&PendingFault) -> bool>(&mut self, pred: P) -> (r: Vec<PendingFault>)
        requires
            forall|f: &PendingFault| call_requires(pred, (f,)),
        ensures
            final(self).report == old(self).report,
            exists|choices: Seq<bool>| #[trigger]
                answered(pred, old(self).pending@, choices) && r@ == picked(old(self).pending@, choices, true)
                    && final(self).pending@ == picked(old(self).pending@, choices, false),
    {
        let ghost items = self.pending@;
        let mut drained: Vec<PendingFault> = Vec::new();
        let mut kept: Vec<PendingFault> = Vec::new();
        let mut parked: Vec<PendingFault> = Vec::new();
        std::mem::swap(&mut parked, &mut self.pending);
        let ghost mut choices: Seq<bool> = seq![];
        assert(parked@ =~= items.skip(0));
        assert(items.take(0) =~= seq![]);
        while parked.len() > 0
            invariant
                choices.len() + parked@.len() == items.len(),
                parked@ == items.skip(choices.len() as int),
                forall|f: &PendingFault| call_requires(pred, (f,)),
                answered(pred, items.take(choices.len() as int), choices),
                drained@ == picked(items.take(choices.len() as int), choices, true),
                kept@ == picked(items.take(choices.len() as int), choices, false),
            decreases parked@.len(),
        {
            let fault = parked.remove(0);
            let wanted: bool = pred(&fault);
            let ghost n = choices.len() as int;
            proof {
                let before = items.take(n);
                let after = items.take(n + 1);
                assert(fault == items[n]);
                assert(after.drop_last() =~= before);
                assert(after.last() == fault);
                let extended = choices.push(wanted);
                lemma_picked_ignores_tail(before, choices, extended, true);
                lemma_picked_ignores_tail(before, choices, extended, false);
                assert forall|i: int| 0 <= i < after.len() implies call_ensures(
                    pred,
                    (&(#[trigger] after[i]),),
                    extended[i],
                ) by {
                    if i < n {
                        assert(after[i] == before[i]);
                    }
                }
                choices = extended;
            }
            if wanted {
                drained.push(fault);
            } else {
                kept.push(fault);
            }
            assert(parked@ =~= items.skip(n + 1));
        }
        proof {
            assert(items.take(choices.len() as int) =~= items);
            assert(answered(pred, items, choices));
        }
        self.pending = kept;
        drained
    }

    /// Folds one fault into the report: the latest wins, and the count goes up as far as it
    /// can.
    pub fn fold_report(&mut self, slot: FaultSlot, message: String)
        ensures
            final(self).pending@ == old(self).pending@,
            final(self).report matches Some(report) && report.slot == slot && report.error
                == (BlurError::DeviceOutOfMemory { source: message }) && report.occurrences == folded_count(
                old(self).report,
            ),
    {
        let count: u32 = match &self.report {
            None => 0,
            Some(report) => report.occurrences,
        };
        self.report = Some(
            FaultReport {
                error: BlurError::DeviceOutOfMemory { source: message },
                slot,
                occurrences: count.saturating_add(1),
            },
        );
    }

    /// Hands the report over and clears it.
    pub fn take_report(&mut self) -> (r: Option<FaultReport>)
        ensures
            r == old(self).report,
            final(self).report is None,
            final(self).pending@ == old(self).pending@,
    {
        self.report.take()
    }
}

/// A log shared between the backend and the tasks that wait for scopes to resolve, all on one
/// thread.
pub type SharedFaultLog = std::rc::Rc<std::cell::RefCell<FaultLog>>;

/// One fault more than a report counts, as far as the counter goes.
pub open spec fn folded_count(report: Option<FaultReport>) -> int {
    match report {
        None => 1,
        Some(r) => if r.occurrences < u32::MAX {
            r.occurrences + 1
        } else {
            u32::MAX as int
        },
    }
}

} // verus!
