//! Debugger tap of the service: what a debugger is told after each block.
//!
//! The tap notes the transfers that are about to expire before a block is
//! committed, and reports them once it is. The channel to the debugger is the
//! host's; when the debugger has hung up, the host tells the tap, which then
//! stays silent.

use crate::api::resolved_transfers;
use crate::crypto::keys::Digest;
use crate::storage::Schema;
use crate::transactions::Transfer;
use vstd::prelude::*;

verus! {

/// Event sent to the debugger.
#[derive(Debug, PartialEq)]
pub enum DebugEvent {
    /// A transfer has been rolled back.
    RolledBack {
        /// Transfer that has been rolled back.
        transfer: Transfer,
        /// Height at which the rollback occurred.
        height: u64,
    },
}

impl Clone for DebugEvent {
    fn clone(&self) -> (copy: DebugEvent)
        ensures
            copy.spec_transfer()@ == self.spec_transfer()@,
            copy.spec_height() == self.spec_height(),
    {
        match self {
            DebugEvent::RolledBack { transfer, height } => DebugEvent::RolledBack {
                transfer: transfer.clone(),
                height: *height,
            },
        }
    }
}

impl DebugEvent {
    /// The transfer that the event is about.
    pub open spec fn spec_transfer(&self) -> Transfer {
        match self {
            DebugEvent::RolledBack { transfer, .. } => *transfer,
        }
    }

    /// The height that the event is about.
    pub open spec fn spec_height(&self) -> u64 {
        match self {
            DebugEvent::RolledBack { height, .. } => *height,
        }
    }
}

/// Debugger options.
#[derive(Debug, Clone, Copy, PartialEq, Eq)]
pub struct DebuggerOptions {
    /// Check service invariants after each block. This is an expensive
    /// operation; it is at least linear in the number of wallets in the
    /// system.
    pub check_invariants: bool,
}

impl Default for DebuggerOptions {
    fn default() -> (options: DebuggerOptions)
        ensures
            !options.check_invariants,
    {
        DebuggerOptions { check_invariants: false }
    }
}

/// What the tap has for the debugger after a block.
#[derive(Debug)]
pub struct AfterCommit {
    /// Whether the invariants of the ledger hold, if the tap was asked to
    /// check them.
    pub invariants_hold: Option<bool>,
    /// Events to send to the debugger, in this order.
    pub events: Vec<DebugEvent>,
}

/// The service's end of the debugger tap.
#[derive(Debug)]
pub struct DebuggerProbe {
    shutdown: bool,
    options: DebuggerOptions,
}

impl DebuggerProbe {
    /// Whether the tap has been shut down, in contracts.
    pub closed spec fn spec_is_shutdown(&self) -> bool {
        self.shutdown
    }

    /// The options of the tap, in contracts.
    pub closed spec fn spec_options(&self) -> DebuggerOptions {
        self.options
    }

    /// Creates a tap that is open.
    pub fn new(options: DebuggerOptions) -> (probe: DebuggerProbe)
        ensures
            !probe.spec_is_shutdown(),
            probe.spec_options() == options,
    {
        DebuggerProbe { shutdown: false, options }
    }

    /// Whether the tap has been shut down.
    #[verifier::when_used_as_spec(spec_is_shutdown)]
    pub fn is_shutdown(&self) -> (shutdown: bool)
        ensures
            shutdown == self.spec_is_shutdown(),
    {
        self.shutdown
    }

    /// Shuts the tap down, for good.
    pub fn shutdown(&mut self)
        ensures
            final(self).spec_is_shutdown(),
            final(self).spec_options() == old(self).spec_options(),
    {
        self.shutdown = true;
    }

    /// Takes note of how the delivery of the events of a block went: a
    /// debugger that has hung up shuts the tap down.
    pub fn delivered(&mut self, success: bool)
        ensures
            final(self).spec_is_shutdown() == (old(self).spec_is_shutdown() || !success),
            final(self).spec_options() == old(self).spec_options(),
    {
        if !success {
            self.shutdown();
        }
    }

    /// To be called before a block is committed and before the service rolls
    /// expired transfers back: notes the transfers that expire with the
    /// block, unless the tap is shut down.
    pub fn on_before_commit(&self, schema: &mut Schema)
        requires
            old(schema).wf(),
            old(schema)@.height < u64::MAX,
        ensures
            final(schema).wf(),
            final(schema)@ == (if self.spec_is_shutdown() {
                old(schema)@
            } else {
                old(schema)@.note_expiring()
            }),
    {
        if self.is_shutdown() {
            return ;
        }
        schema.copy_rolled_back_transfers();
    }

    /// To be called after a block is committed: tells what to send to the
    /// debugger. A tap that is shut down has nothing to tell; one that is open
    /// reports each transfer that expired with the block, with the height of
    /// the block, and the state of the invariants if it was asked for it.
    pub fn on_after_commit(&self, schema: &Schema, height: u64) -> (report: AfterCommit)
        requires
            schema.wf(),
        ensures
            self.spec_is_shutdown() ==> report.invariants_hold is None && report.events@.len() == 0,
            !self.spec_is_shutdown() ==> {
                let transfers = resolved_transfers(schema@, schema@.rolled_back);
                &&& report.invariants_hold == (if self.spec_options().check_invariants {
                    Some(schema@.consistent())
                } else {
                    None
                })
                &&& report.events@.len() == transfers.len()
                &&& forall|i: int|
                    0 <= i < transfers.len() ==> (#[trigger] report.events@[i]).spec_transfer()@
                        == transfers[i] && report.events@[i].spec_height() == height
            },
    {
        if self.is_shutdown() {
            return AfterCommit { invariants_hold: None, events: Vec::new() };
        }
        let invariants_hold = if self.options.check_invariants {
            Some(schema.check_invariants())
        } else {
            None
        };
        let ids = schema.rolled_back_transfers();
        let mut events: Vec<DebugEvent> = Vec::new();
        let mut i: usize = 0;
        proof {
            assert(ids@.subrange(0, 0) =~= Seq::<Digest>::empty());
        }
        while i < ids.len()
            invariant
                i <= ids@.len(),
                schema.wf(),
                events@.len() == resolved_transfers(schema@, ids@.subrange(0, i as int)).len(),
                forall|k: int|
                    0 <= k < events@.len() ==> (#[trigger] events@[k]).spec_transfer()@
                        == resolved_transfers(schema@, ids@.subrange(0, i as int))[k]
                        && events@[k].spec_height() == height,
            decreases ids@.len() - i,
        {
            proof {
                assert(ids@.subrange(0, i + 1).drop_last() =~= ids@.subrange(0, i as int));
            }
            match schema.maybe_transfer(&ids[i]) {
                Some(transfer) => {
                    events.push(DebugEvent::RolledBack { transfer, height });
                },
                None => {},
            }
            i += 1;
        }
        proof {
            assert(ids@.subrange(0, ids@.len() as int) =~= ids@);
        }
        AfterCommit { invariants_hold, events }
    }
}

} // verus!
