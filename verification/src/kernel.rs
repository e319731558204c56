//! The kernel state the IPC core runs over: per-type object tables, the
//! scheduler bookkeeping the core hands its hints to, and the
//! well-formedness invariant every operation preserves.

use vstd::prelude::*;

use crate::types::{
    Cap, CallerCap, EPState, Endpoint, Fault, LookupFault, MsgInfo, Notification, NtfnState,
    runnable, ReceiveSlot, Reply, SchedContext, Tcb, ThreadState, ThreadStateRecord, TimeoutEvent,
    MAX_EXTRA_CAPS, MSG_MAX_LENGTH, N_CONTEXT_REGISTERS,
};

verus! {

/// All kernel objects the IPC core touches, held in per-type tables and
/// referred to by index, together with the scheduler bookkeeping fields.
///
/// The scheduler, the capability space and the scheduling-context
/// accounting are collaborators outside the core; the fields below record
/// exactly what the core hands them: `ready_queue` the enqueue requests,
/// `release_queue` the postponed scheduling contexts, `switch_candidate`
/// the latest switch hint, `resched` the reschedule request, and
/// `timeout_event` the latest timeout-handler invocation.
pub struct Kernel {
    pub tcbs: Vec<Tcb>,
    pub endpoints: Vec<Endpoint>,
    pub notifications: Vec<Notification>,
    pub replies: Vec<Reply>,
    pub scs: Vec<SchedContext>,
    /// The thread currently executing on this core, if any.
    pub cur_thread: Option<usize>,
    /// The scheduling context currently charged, if any.
    pub cur_sc: Option<usize>,
    /// Threads handed to the scheduler for enqueueing, in order.
    pub ready_queue: Vec<usize>,
    /// Scheduling contexts postponed to the release queue, in order.
    pub release_queue: Vec<usize>,
    /// The latest candidate recorded by the switch hint; switching itself
    /// happens when the kernel returns to user mode.
    pub switch_candidate: Option<usize>,
    /// Whether a full reschedule was requested.
    pub resched: bool,
    /// The latest timeout-handler invocation recorded, if any.
    pub timeout_event: Option<TimeoutEvent>,
}

impl Kernel {
    pub open spec fn valid_tcb(self, t: int) -> bool {
        0 <= t < self.tcbs@.len()
    }

    pub open spec fn valid_ep(self, e: int) -> bool {
        0 <= e < self.endpoints@.len()
    }

    pub open spec fn valid_ntfn(self, n: int) -> bool {
        0 <= n < self.notifications@.len()
    }

    pub open spec fn valid_reply(self, r: int) -> bool {
        0 <= r < self.replies@.len()
    }

    pub open spec fn valid_sc(self, s: int) -> bool {
        0 <= s < self.scs@.len()
    }

    pub open spec fn ep_queue(self, e: int) -> Seq<usize> {
        self.endpoints@[e].queue@
    }

    pub open spec fn ntfn_queue(self, n: int) -> Seq<usize> {
        self.notifications@[n].queue@
    }

    /// The register arrays and capability arrays of a thread have their
    /// fixed architectural lengths.
    pub open spec fn tcb_shape_ok(self, t: int) -> bool {
        let tcb = self.tcbs@[t];
        &&& tcb.arch.regs@.len() == N_CONTEXT_REGISTERS
        &&& tcb.arch.mrs@.len() == MSG_MAX_LENGTH
        &&& tcb.caps_or_badges@.len() == MAX_EXTRA_CAPS
        &&& tcb.extra_caps@.len() <= MAX_EXTRA_CAPS
    }

    /// Queue discipline of one endpoint: idle exactly when empty, members
    /// distinct and valid, and every member blocked on this endpoint in
    /// the direction the state names.
    pub open spec fn ep_ok(self, e: int) -> bool {
        let ep = self.endpoints@[e];
        let q = ep.queue@;
        &&& (ep.state == EPState::Idle <==> q.len() == 0)
        &&& (forall|i: int| 0 <= i < q.len() ==> self.valid_tcb(#[trigger] q[i] as int))
        &&& distinct_seq(q)
        &&& (ep.state == EPState::Send ==> forall|i: int| 0 <= i < q.len() ==> {
            let tcb = self.tcbs@[#[trigger] q[i] as int];
            tcb.state.ts_type == ThreadState::BlockedOnSend && tcb.state.blocking_object == Some(
                e as usize,
            )
        })
        &&& (ep.state == EPState::Recv ==> forall|i: int| 0 <= i < q.len() ==> {
            let tcb = self.tcbs@[#[trigger] q[i] as int];
            tcb.state.ts_type == ThreadState::BlockedOnReceive
                && tcb.state.blocking_object == Some(e as usize)
        })
    }

    /// Queue discipline of one notification: waiting exactly when the
    /// queue is non-empty, members distinct, valid and blocked here, and
    /// the bound thread pointing back.
    pub open spec fn ntfn_ok(self, n: int) -> bool {
        let nf = self.notifications@[n];
        let q = nf.queue@;
        &&& (nf.state == NtfnState::Waiting <==> q.len() > 0)
        &&& (forall|i: int| 0 <= i < q.len() ==> self.valid_tcb(#[trigger] q[i] as int))
        &&& distinct_seq(q)
        &&& (forall|i: int| 0 <= i < q.len() ==> {
            let tcb = self.tcbs@[#[trigger] q[i] as int];
            tcb.state.ts_type == ThreadState::BlockedOnNotification && tcb.state.blocking_object
                == Some(n as usize)
        })
        &&& (nf.bound_tcb matches Some(t) ==> self.valid_tcb(t as int)
            && self.tcbs@[t as int].bound_notification == Some(n as usize))
        &&& (nf.sched_context matches Some(s) ==> self.valid_sc(s as int))
    }

    /// One thread's outgoing references: a blocked thread sits in the
    /// queue of the object it names, and every link field points at an
    /// object that points back.
    pub open spec fn tcb_ok(self, t: int) -> bool {
        let tcb = self.tcbs@[t];
        &&& self.tcb_shape_ok(t)
        &&& ((tcb.state.ts_type == ThreadState::BlockedOnSend || tcb.state.ts_type
            == ThreadState::BlockedOnReceive) ==> (tcb.state.blocking_object matches Some(e)
            && self.valid_ep(e as int) && self.ep_queue(e as int).contains(t as usize)))
        &&& (tcb.state.ts_type == ThreadState::BlockedOnNotification ==> (
        tcb.state.blocking_object matches Some(n) && self.valid_ntfn(n as int) && self.ntfn_queue(
            n as int,
        ).contains(t as usize)))
        &&& (tcb.state.reply_object matches Some(r) ==> self.valid_reply(r as int)
            && self.replies@[r as int].tcb == Some(t as usize) && (tcb.state.ts_type
            == ThreadState::BlockedOnReceive || tcb.state.ts_type == ThreadState::BlockedOnReply))
        &&& (tcb.bound_notification matches Some(n) ==> self.valid_ntfn(n as int)
            && self.notifications@[n as int].bound_tcb == Some(t as usize))
        &&& (tcb.sched_context matches Some(s) ==> self.valid_sc(s as int)
            && self.scs@[s as int].tcb == Some(t as usize))
        &&& (tcb.caller_slot matches Some(c) ==> self.valid_tcb(c.caller as int)
            && self.tcbs@[c.caller as int].caller_slot_in == Some(t as usize))
        &&& (tcb.caller_slot_in matches Some(h) ==> self.valid_tcb(h as int)
            && (self.tcbs@[h as int].caller_slot matches Some(c) && c.caller == t as usize)
            && tcb.state.ts_type == ThreadState::BlockedOnReply
            && tcb.state.reply_object is None)
        &&& (tcb.caller_slot matches Some(c) ==> c.caller != t as usize)
    }

    /// One reply object's links point back.
    pub open spec fn reply_ok(self, r: int) -> bool {
        let rp = self.replies@[r];
        &&& (rp.tcb matches Some(t) ==> self.valid_tcb(t as int) && self.tcbs@[t as int].state.reply_object
            == Some(r as usize))
        &&& (rp.sched_context matches Some(s) ==> self.valid_sc(s as int))
    }

    /// One scheduling context's thread points back.
    pub open spec fn sc_ok(self, s: int) -> bool {
        self.scs@[s].tcb matches Some(t) ==> self.valid_tcb(t as int)
            && self.tcbs@[t as int].sched_context == Some(s as usize)
    }

    /// The scheduler bookkeeping fields hold valid indices.
    pub open spec fn sched_ok(self) -> bool {
        &&& (self.cur_thread matches Some(t) ==> self.valid_tcb(t as int))
        &&& (self.cur_sc matches Some(s) ==> self.valid_sc(s as int))
        &&& (forall|i: int| 0 <= i < self.ready_queue@.len() ==> self.valid_tcb(
            #[trigger] self.ready_queue@[i] as int,
        ))
        &&& (forall|i: int| 0 <= i < self.release_queue@.len() ==> self.valid_sc(
            #[trigger] self.release_queue@[i] as int,
        ))
        &&& (self.switch_candidate matches Some(t) ==> self.valid_tcb(t as int))
        &&& (self.timeout_event matches Some(ev) ==> self.valid_tcb(ev.tcb as int))
    }

    /// The well-formedness invariant of the whole kernel state. Every
    /// operation of the core requires and preserves it.
    pub open spec fn wf(self) -> bool {
        &&& (forall|t: int| 0 <= t < self.tcbs@.len() ==> #[trigger] self.tcb_ok(t))
        &&& (forall|e: int| 0 <= e < self.endpoints@.len() ==> #[trigger] self.ep_ok(e))
        &&& (forall|n: int| 0 <= n < self.notifications@.len() ==> #[trigger] self.ntfn_ok(n))
        &&& (forall|r: int| 0 <= r < self.replies@.len() ==> #[trigger] self.reply_ok(r))
        &&& (forall|s: int| 0 <= s < self.scs@.len() ==> #[trigger] self.sc_ok(s))
        &&& self.sched_ok()
    }
}

/// The current-thread and current-scheduling-context fields of the two
/// states are equal.
pub open spec fn same_cur(a: Kernel, b: Kernel) -> bool {
    &&& b.cur_thread == a.cur_thread
    &&& b.cur_sc == a.cur_sc
}

/// The endpoint tables of the two states are equal.
pub open spec fn same_eps(a: Kernel, b: Kernel) -> bool {
    b.endpoints@ == a.endpoints@
}

/// The notification tables of the two states are equal.
pub open spec fn same_ntfns(a: Kernel, b: Kernel) -> bool {
    b.notifications@ == a.notifications@
}

/// The reply tables of the two states are equal.
pub open spec fn same_replies(a: Kernel, b: Kernel) -> bool {
    b.replies@ == a.replies@
}

/// The scheduling-context tables of the two states are equal.
pub open spec fn same_scs(a: Kernel, b: Kernel) -> bool {
    b.scs@ == a.scs@
}

/// The thread tables of the two states are equal.
pub open spec fn same_tcbs(a: Kernel, b: Kernel) -> bool {
    b.tcbs@ == a.tcbs@
}

/// The scheduler bookkeeping of the two states is equal.
pub open spec fn same_sched(a: Kernel, b: Kernel) -> bool {
    &&& b.cur_thread == a.cur_thread
    &&& b.cur_sc == a.cur_sc
    &&& b.ready_queue@ == a.ready_queue@
    &&& b.release_queue@ == a.release_queue@
    &&& b.switch_candidate == a.switch_candidate
    &&& b.resched == a.resched
    &&& b.timeout_event == a.timeout_event
}

/// The thread tables agree everywhere but at `t`.
pub open spec fn tcbs_same_except(a: Kernel, b: Kernel, t: int) -> bool {
    &&& b.tcbs@.len() == a.tcbs@.len()
    &&& (forall|k: int| 0 <= k < a.tcbs@.len() && k != t ==> b.tcbs@[k] == a.tcbs@[k])
}

/// The thread tables agree everywhere but at `t1` and `t2`.
pub open spec fn tcbs_same_except2(a: Kernel, b: Kernel, t1: int, t2: int) -> bool {
    &&& b.tcbs@.len() == a.tcbs@.len()
    &&& (forall|k: int| 0 <= k < a.tcbs@.len() && k != t1 && k != t2 ==> b.tcbs@[k] == a.tcbs@[k])
}

/// The endpoint tables agree everywhere but at `e`.
pub open spec fn eps_same_except(a: Kernel, b: Kernel, e: int) -> bool {
    &&& b.endpoints@.len() == a.endpoints@.len()
    &&& (forall|k: int| 0 <= k < a.endpoints@.len() && k != e ==> b.endpoints@[k]
        == a.endpoints@[k])
}

/// The notification tables agree everywhere but at `n`.
pub open spec fn ntfns_same_except(a: Kernel, b: Kernel, n: int) -> bool {
    &&& b.notifications@.len() == a.notifications@.len()
    &&& (forall|k: int| 0 <= k < a.notifications@.len() && k != n ==> b.notifications@[k]
        == a.notifications@[k])
}

/// The reply tables agree everywhere but at `r`.
pub open spec fn replies_same_except(a: Kernel, b: Kernel, r: int) -> bool {
    &&& b.replies@.len() == a.replies@.len()
    &&& (forall|k: int| 0 <= k < a.replies@.len() && k != r ==> b.replies@[k] == a.replies@[k])
}

/// The scheduling-context tables agree everywhere but at `s`.
pub open spec fn scs_same_except(a: Kernel, b: Kernel, s: int) -> bool {
    &&& b.scs@.len() == a.scs@.len()
    &&& (forall|k: int| 0 <= k < a.scs@.len() && k != s ==> b.scs@[k] == a.scs@[k])
}

impl Kernel {
    /// Table lengths fit the machine word, so an index cast between
    /// `int` and `usize` is exact.
    pub proof fn lemma_len_bounds(self)
        ensures
            self.tcbs@.len() <= usize::MAX,
            self.endpoints@.len() <= usize::MAX,
            self.notifications@.len() <= usize::MAX,
            self.replies@.len() <= usize::MAX,
            self.scs@.len() <= usize::MAX,
    {
        assert(self.tcbs.len() == self.tcbs@.len());
        assert(self.endpoints.len() == self.endpoints@.len());
        assert(self.notifications.len() == self.notifications@.len());
        assert(self.replies.len() == self.replies@.len());
        assert(self.scs.len() == self.scs@.len());
    }
}

/// The link fields and array shapes of two thread control blocks agree;
/// the message, register, fault and capability payloads may differ.
pub open spec fn tcb_links_eq(x: Tcb, y: Tcb) -> bool {
    &&& y.state == x.state
    &&& y.bound_notification == x.bound_notification
    &&& y.sched_context == x.sched_context
    &&& y.caller_slot == x.caller_slot
    &&& y.caller_slot_in == x.caller_slot_in
    &&& y.arch.regs@.len() == x.arch.regs@.len()
    &&& y.arch.mrs@.len() == x.arch.mrs@.len()
    &&& y.caps_or_badges@.len() == x.caps_or_badges@.len()
    &&& y.extra_caps@.len() == x.extra_caps@.len()
}

/// Well-formedness carries over to a state that differs only in thread
/// payloads (registers, messages, faults, capability contents) and in
/// well-formed scheduler bookkeeping: no link field moved.
pub proof fn lemma_wf_preserved_links(a: Kernel, b: Kernel)
    requires
        a.wf(),
        b.tcbs@.len() == a.tcbs@.len(),
        forall|k: int| 0 <= k < a.tcbs@.len() ==> tcb_links_eq(
            a.tcbs@[k],
            #[trigger] b.tcbs@[k],
        ),
        same_eps(a, b),
        same_ntfns(a, b),
        same_replies(a, b),
        b.scs@.len() == a.scs@.len(),
        forall|k: int| 0 <= k < a.scs@.len() ==> #[trigger] b.scs@[k].tcb == a.scs@[k].tcb,
        b.sched_ok(),
    ensures
        b.wf(),
{
    assert forall|t: int| 0 <= t < b.tcbs@.len() implies b.tcb_ok(t) by {
        assert(a.tcb_ok(t));
        assert(tcb_links_eq(a.tcbs@[t], b.tcbs@[t]));
    }
    assert forall|e: int| 0 <= e < b.endpoints@.len() implies b.ep_ok(e) by {
        assert(a.ep_ok(e));
        assert forall|i: int| 0 <= i < b.ep_queue(e).len() implies tcb_links_eq(
            a.tcbs@[#[trigger] b.ep_queue(e)[i] as int],
            b.tcbs@[b.ep_queue(e)[i] as int],
        ) by {
            assert(a.valid_tcb(b.ep_queue(e)[i] as int));
        }
    }
    assert forall|n: int| 0 <= n < b.notifications@.len() implies b.ntfn_ok(n) by {
        assert(a.ntfn_ok(n));
        assert forall|i: int| 0 <= i < b.ntfn_queue(n).len() implies tcb_links_eq(
            a.tcbs@[#[trigger] b.ntfn_queue(n)[i] as int],
            b.tcbs@[b.ntfn_queue(n)[i] as int],
        ) by {
            assert(a.valid_tcb(b.ntfn_queue(n)[i] as int));
        }
        assert(b.notifications@[n].bound_tcb matches Some(t) ==> tcb_links_eq(
            a.tcbs@[t as int],
            b.tcbs@[t as int],
        ));
    }
    assert forall|r: int| 0 <= r < b.replies@.len() implies b.reply_ok(r) by {
        assert(a.reply_ok(r));
        assert(b.replies@[r].tcb matches Some(t) ==> tcb_links_eq(
            a.tcbs@[t as int],
            b.tcbs@[t as int],
        ));
    }
    assert forall|s: int| 0 <= s < b.scs@.len() implies b.sc_ok(s) by {
        assert(a.sc_ok(s));
        assert(b.scs@[s].tcb matches Some(t) ==> tcb_links_eq(
            a.tcbs@[t as int],
            b.tcbs@[t as int],
        ));
    }
}


/// Well-formedness carries over to the state reached by cancelling one
/// blocked thread on an endpoint: the thread leaves the queue and goes
/// inactive, the endpoint goes idle when the queue drains, and a reply
/// object linked to the thread is unlinked.
pub proof fn lemma_wf_after_ep_cancel(a: Kernel, b: Kernel, e: int, t: int, ix: int)
    requires
        a.wf(),
        a.valid_ep(e),
        a.valid_tcb(t),
        a.tcbs@[t].state.ts_type == ThreadState::BlockedOnSend || a.tcbs@[t].state.ts_type
            == ThreadState::BlockedOnReceive,
        a.tcbs@[t].state.blocking_object == Some(e as usize),
        0 <= ix < a.ep_queue(e).len(),
        a.ep_queue(e)[ix] == t as usize,
        tcbs_same_except(a, b, t),
        b.tcbs@[t] == (Tcb {
            state: ThreadStateRecord {
                ts_type: ThreadState::Inactive,
                reply_object: None,
                ..a.tcbs@[t].state
            },
            ..a.tcbs@[t]
        }),
        eps_same_except(a, b, e),
        b.endpoints@[e].queue@ == a.ep_queue(e).remove(ix),
        b.endpoints@[e].state == (if a.ep_queue(e).len() == 1 {
            EPState::Idle
        } else {
            a.endpoints@[e].state
        }),
        same_ntfns(a, b),
        (a.tcbs@[t].state.reply_object matches Some(r) ==> replies_same_except(a, b, r as int)
            && b.replies@[r as int] == (Reply { tcb: None, ..a.replies@[r as int] })),
        (a.tcbs@[t].state.reply_object is None ==> same_replies(a, b)),
        same_scs(a, b),
        same_cur(a, b),
        b.ready_queue@ == a.ready_queue@,
        b.release_queue@ == a.release_queue@,
        b.switch_candidate == a.switch_candidate,
        b.timeout_event == a.timeout_event,
    ensures
        b.wf(),
{
    a.lemma_len_bounds();
    let oldq = a.ep_queue(e);
    let newq = b.ep_queue(e);
    assert(a.ep_ok(e));
    assert(a.tcb_ok(t));
    assert forall|x: usize| #[trigger] newq.contains(x) implies oldq.contains(x) && x
        != t as usize by {
        let w = choose|w: int| 0 <= w < newq.len() && newq[w] == x;
        if w < ix {
            assert(oldq[w] == x);
        } else {
            assert(oldq[w + 1] == x);
        }
    }
    assert forall|x: usize| oldq.contains(x) && x != t as usize implies newq.contains(x) by {
        let w = choose|w: int| 0 <= w < oldq.len() && oldq[w] == x;
        if w < ix {
            assert(newq[w] == x);
        } else {
            assert(w != ix);
            assert(newq[w - 1] == x);
        }
    }
    assert forall|tt: int| 0 <= tt < b.tcbs@.len() implies b.tcb_ok(tt) by {
        assert(a.tcb_ok(tt));
        if tt != t {
            let tcb = a.tcbs@[tt];
            if tcb.state.ts_type == ThreadState::BlockedOnSend || tcb.state.ts_type
                == ThreadState::BlockedOnReceive {
                let m = tcb.state.blocking_object->0;
                if m == e {
                    assert(oldq.contains(tt as usize));
                    assert(tt as usize != t as usize);
                    assert(newq.contains(tt as usize));
                }
            }
        }
    }
    assert forall|e2: int| 0 <= e2 < b.endpoints@.len() implies b.ep_ok(e2) by {
        assert(a.ep_ok(e2));
        if e2 != e {
            assert forall|i: int| 0 <= i < a.ep_queue(e2).len() implies a.ep_queue(e2)[i]
                != t as usize by {
                if a.ep_queue(e2)[i] == t as usize {
                    assert(a.tcbs@[t].state.blocking_object == Some(e2 as usize));
                }
            }
        } else {
            assert forall|i: int| 0 <= i < newq.len() implies {
                let tcb = b.tcbs@[#[trigger] newq[i] as int];
                &&& b.valid_tcb(newq[i] as int)
                &&& (b.endpoints@[e].state == EPState::Send ==> tcb.state.ts_type
                    == ThreadState::BlockedOnSend && tcb.state.blocking_object == Some(e as usize))
                &&& (b.endpoints@[e].state == EPState::Recv ==> tcb.state.ts_type
                    == ThreadState::BlockedOnReceive && tcb.state.blocking_object == Some(
                    e as usize,
                ))
            } by {
                assert(newq.contains(newq[i]));
                assert(oldq.contains(newq[i]));
                assert(newq[i] != t as usize);
            }
        }
    }
    assert forall|m: int| 0 <= m < b.notifications@.len() implies b.ntfn_ok(m) by {
        assert(a.ntfn_ok(m));
        assert forall|i: int| 0 <= i < a.ntfn_queue(m).len() implies a.ntfn_queue(m)[i]
            != t as usize by {
            assert(a.tcbs@[a.ntfn_queue(m)[i] as int].state.ts_type
                == ThreadState::BlockedOnNotification);
        }
    }
    assert forall|r: int| 0 <= r < b.replies@.len() implies b.reply_ok(r) by {
        assert(a.reply_ok(r));
        match b.replies@[r].tcb {
            Some(t2) => {
                assert(a.replies@[r].tcb == Some(t2));
                assert(a.tcbs@[t2 as int].state.reply_object == Some(r as usize));
                assert(t2 as int != t);
            },
            None => {},
        }
    }
    assert forall|s: int| 0 <= s < b.scs@.len() implies b.sc_ok(s) by {
        assert(a.sc_ok(s));
    }
}


/// Well-formedness carries over to the state reached by dropping the
/// reply object of a thread awaiting a reply: both links clear and the
/// thread goes inactive.
pub proof fn lemma_wf_after_reply_drop(a: Kernel, b: Kernel, t: int, r: int)
    requires
        a.wf(),
        a.valid_tcb(t),
        a.valid_reply(r),
        a.tcbs@[t].state.ts_type == ThreadState::BlockedOnReply,
        a.tcbs@[t].state.reply_object == Some(r as usize),
        tcbs_same_except(a, b, t),
        b.tcbs@[t] == (Tcb {
            state: ThreadStateRecord {
                ts_type: ThreadState::Inactive,
                reply_object: None,
                ..a.tcbs@[t].state
            },
            ..a.tcbs@[t]
        }),
        same_eps(a, b),
        same_ntfns(a, b),
        replies_same_except(a, b, r),
        b.replies@[r] == (Reply { tcb: None, sched_context: None }),
        same_scs(a, b),
        same_cur(a, b),
        b.ready_queue@ == a.ready_queue@,
        b.release_queue@ == a.release_queue@,
        b.switch_candidate == a.switch_candidate,
        b.timeout_event == a.timeout_event,
    ensures
        b.wf(),
{
    a.lemma_len_bounds();
    assert(a.tcb_ok(t));
    assert forall|tt: int| 0 <= tt < b.tcbs@.len() implies b.tcb_ok(tt) by {
        assert(a.tcb_ok(tt));
        match a.tcbs@[tt].caller_slot {
            Some(c) => {
                if c.caller as int == t {
                    assert(a.tcbs@[t].caller_slot_in == Some(tt as usize));
                }
            },
            None => {},
        }
    }
    assert forall|e: int| 0 <= e < b.endpoints@.len() implies b.ep_ok(e) by {
        assert(a.ep_ok(e));
        assert forall|i: int| 0 <= i < a.ep_queue(e).len() implies a.ep_queue(e)[i] as int
            != t by {
            assert(a.tcbs@[a.ep_queue(e)[i] as int].state.ts_type != ThreadState::BlockedOnReply);
        }
    }
    assert forall|m: int| 0 <= m < b.notifications@.len() implies b.ntfn_ok(m) by {
        assert(a.ntfn_ok(m));
        assert forall|i: int| 0 <= i < a.ntfn_queue(m).len() implies a.ntfn_queue(m)[i] as int
            != t by {
            assert(a.tcbs@[a.ntfn_queue(m)[i] as int].state.ts_type
                != ThreadState::BlockedOnReply);
        }
    }
    assert forall|r2: int| 0 <= r2 < b.replies@.len() implies b.reply_ok(r2) by {
        assert(a.reply_ok(r2));
        match b.replies@[r2].tcb {
            Some(t2) => {
                assert(a.tcbs@[t2 as int].state.reply_object == Some(r2 as usize));
                assert(t2 as int != t);
            },
            None => {},
        }
    }
    assert forall|s: int| 0 <= s < b.scs@.len() implies b.sc_ok(s) by {
        assert(a.sc_ok(s));
    }
}

/// Well-formedness carries over to the state reached by clearing the
/// fault of a thread awaiting a reply and deleting the caller capability
/// that names it.
pub proof fn lemma_wf_after_caller_cap_drop(a: Kernel, b: Kernel, t: int)
    requires
        a.wf(),
        a.valid_tcb(t),
        a.tcbs@[t].state.ts_type == ThreadState::BlockedOnReply,
        a.tcbs@[t].state.reply_object is None,
        (a.tcbs@[t].caller_slot_in matches Some(h) ==> tcbs_same_except2(a, b, t, h as int)
            && b.tcbs@[h as int] == (Tcb { caller_slot: None, ..a.tcbs@[h as int] })),
        (a.tcbs@[t].caller_slot_in is None ==> tcbs_same_except(a, b, t)),
        b.tcbs@[t] == (Tcb {
            fault: b.tcbs@[t].fault,
            caller_slot_in: None,
            ..a.tcbs@[t]
        }),
        same_eps(a, b),
        same_ntfns(a, b),
        same_replies(a, b),
        same_scs(a, b),
        same_cur(a, b),
        b.ready_queue@ == a.ready_queue@,
        b.release_queue@ == a.release_queue@,
        b.switch_candidate == a.switch_candidate,
        b.timeout_event == a.timeout_event,
    ensures
        b.wf(),
{
    a.lemma_len_bounds();
    assert(a.tcb_ok(t));
    let h_opt = a.tcbs@[t].caller_slot_in;
    assert forall|tt: int| 0 <= tt < b.tcbs@.len() implies b.tcb_ok(tt) by {
        assert(a.tcb_ok(tt));
        match h_opt {
            Some(h) => {
                assert(a.tcb_ok(h as int));
                assert(h as int != t);
            },
            None => {},
        }
        match a.tcbs@[tt].caller_slot {
            Some(c) => {
                if c.caller as int == t {
                    assert(a.tcbs@[t].caller_slot_in == Some(tt as usize));
                }
            },
            None => {},
        }
        match a.tcbs@[tt].caller_slot_in {
            Some(h2) => {
                match h_opt {
                    Some(h) => {
                        if h2 == h && tt != t {
                            assert(a.tcbs@[h as int].caller_slot matches Some(c) && c.caller
                                == tt as usize);
                            assert(a.tcbs@[h as int].caller_slot matches Some(c) && c.caller
                                == t as usize);
                            assert(false);
                        }
                    },
                    None => {},
                }
            },
            None => {},
        }
    }
    assert forall|e: int| 0 <= e < b.endpoints@.len() implies b.ep_ok(e) by {
        assert(a.ep_ok(e));
        assert forall|i: int| 0 <= i < a.ep_queue(e).len() implies b.tcbs@[#[trigger] a.ep_queue(
            e,
        )[i] as int].state == a.tcbs@[a.ep_queue(e)[i] as int].state by {
            assert(a.tcbs@[a.ep_queue(e)[i] as int].state.ts_type
                != ThreadState::BlockedOnReply);
        }
    }
    assert forall|m: int| 0 <= m < b.notifications@.len() implies b.ntfn_ok(m) by {
        assert(a.ntfn_ok(m));
        assert forall|i: int| 0 <= i < a.ntfn_queue(m).len() implies b.tcbs@[#[trigger] a.ntfn_queue(
            m,
        )[i] as int].state == a.tcbs@[a.ntfn_queue(m)[i] as int].state by {
            assert(a.tcbs@[a.ntfn_queue(m)[i] as int].state.ts_type
                != ThreadState::BlockedOnReply);
        }
    }
    assert forall|r2: int| 0 <= r2 < b.replies@.len() implies b.reply_ok(r2) by {
        assert(a.reply_ok(r2));
    }
    assert forall|s: int| 0 <= s < b.scs@.len() implies b.sc_ok(s) by {
        assert(a.sc_ok(s));
    }
}


/// Threads in the named states sit on no wait queue.
pub open spec fn unqueued(ts: ThreadState) -> bool {
    ||| ts == ThreadState::Inactive
    ||| ts == ThreadState::Running
    ||| ts == ThreadState::Restart
    ||| ts == ThreadState::IdleThreadState
    ||| ts == ThreadState::BlockedOnReply
}

/// Well-formedness carries over to the state reached by cancelling one
/// waiter on a notification: the thread leaves the queue and the
/// notification goes idle when the queue drains.
pub proof fn lemma_wf_after_ntfn_cancel(a: Kernel, b: Kernel, n: int, t: int, ix: int)
    requires
        a.wf(),
        a.valid_ntfn(n),
        a.valid_tcb(t),
        a.tcbs@[t].state.ts_type == ThreadState::BlockedOnNotification,
        a.tcbs@[t].state.blocking_object == Some(n as usize),
        0 <= ix < a.ntfn_queue(n).len(),
        a.ntfn_queue(n)[ix] == t as usize,
        tcbs_same_except(a, b, t),
        b.tcbs@[t] == (Tcb {
            state: ThreadStateRecord {
                ts_type: b.tcbs@[t].state.ts_type,
                ..a.tcbs@[t].state
            },
            arch: b.tcbs@[t].arch,
            ..a.tcbs@[t]
        }),
        b.tcbs@[t].arch.regs@.len() == a.tcbs@[t].arch.regs@.len(),
        b.tcbs@[t].arch.mrs@.len() == a.tcbs@[t].arch.mrs@.len(),
        unqueued(b.tcbs@[t].state.ts_type),
        ntfns_same_except(a, b, n),
        b.notifications@[n].queue@ == a.ntfn_queue(n).remove(ix),
        b.notifications@[n].state == (if a.ntfn_queue(n).len() == 1 {
            NtfnState::Idle
        } else {
            a.notifications@[n].state
        }),
        b.notifications@[n].badge == a.notifications@[n].badge,
        b.notifications@[n].bound_tcb == a.notifications@[n].bound_tcb,
        b.notifications@[n].sched_context == a.notifications@[n].sched_context,
        same_eps(a, b),
        same_replies(a, b),
        same_scs(a, b),
        same_cur(a, b),
        b.ready_queue@ == a.ready_queue@,
        b.release_queue@ == a.release_queue@,
        b.switch_candidate == a.switch_candidate || b.switch_candidate == Some(t as usize),
        b.timeout_event == a.timeout_event,
    ensures
        b.wf(),
{
    a.lemma_len_bounds();
    let oldq = a.ntfn_queue(n);
    let newq = b.ntfn_queue(n);
    assert(a.ntfn_ok(n));
    assert(a.tcb_ok(t));
    assert forall|x: usize| #[trigger] newq.contains(x) implies oldq.contains(x) && x
        != t as usize by {
        let w = choose|w: int| 0 <= w < newq.len() && newq[w] == x;
        if w < ix {
            assert(oldq[w] == x);
        } else {
            assert(oldq[w + 1] == x);
        }
    }
    assert forall|x: usize| oldq.contains(x) && x != t as usize implies newq.contains(x) by {
        let w = choose|w: int| 0 <= w < oldq.len() && oldq[w] == x;
        if w < ix {
            assert(newq[w] == x);
        } else {
            assert(w != ix);
            assert(newq[w - 1] == x);
        }
    }
    assert forall|tt: int| 0 <= tt < b.tcbs@.len() implies b.tcb_ok(tt) by {
        assert(a.tcb_ok(tt));
        if tt != t {
            let tcb = a.tcbs@[tt];
            if tcb.state.ts_type == ThreadState::BlockedOnNotification {
                let m = tcb.state.blocking_object->0;
                if m as int == n {
                    assert(oldq.contains(tt as usize));
                    assert(newq.contains(tt as usize));
                }
            }
        }
    }
    assert forall|e: int| 0 <= e < b.endpoints@.len() implies b.ep_ok(e) by {
        assert(a.ep_ok(e));
        assert forall|i: int| 0 <= i < a.ep_queue(e).len() implies a.ep_queue(e)[i]
            != t as usize by {
            assert(a.tcbs@[a.ep_queue(e)[i] as int].state.ts_type
                != ThreadState::BlockedOnNotification);
        }
    }
    assert forall|m: int| 0 <= m < b.notifications@.len() implies b.ntfn_ok(m) by {
        assert(a.ntfn_ok(m));
        if m != n {
            assert forall|i: int| 0 <= i < a.ntfn_queue(m).len() implies a.ntfn_queue(m)[i]
                != t as usize by {
                if a.ntfn_queue(m)[i] == t as usize {
                    assert(a.tcbs@[t].state.blocking_object == Some(m as usize));
                }
            }
        } else {
            assert forall|i: int| 0 <= i < newq.len() implies {
                let tcb = b.tcbs@[#[trigger] newq[i] as int];
                &&& b.valid_tcb(newq[i] as int)
                &&& tcb.state.ts_type == ThreadState::BlockedOnNotification
                &&& tcb.state.blocking_object == Some(n as usize)
            } by {
                assert(newq.contains(newq[i]));
                assert(oldq.contains(newq[i]));
            }
        }
    }
    assert forall|r: int| 0 <= r < b.replies@.len() implies b.reply_ok(r) by {
        assert(a.reply_ok(r));
    }
    assert forall|s: int| 0 <= s < b.scs@.len() implies b.sc_ok(s) by {
        assert(a.sc_ok(s));
    }
}

/// Well-formedness carries over when one unqueued thread changes among
/// the unqueued states or changes only its payload, with at most a
/// scheduler hint recorded for it.
pub proof fn lemma_wf_after_unqueued_update(a: Kernel, b: Kernel, t: int)
    requires
        a.wf(),
        a.valid_tcb(t),
        unqueued(a.tcbs@[t].state.ts_type),
        unqueued(b.tcbs@[t].state.ts_type),
        a.tcbs@[t].state.ts_type == ThreadState::BlockedOnReply ==> a.tcbs@[t].state.reply_object
            is None && a.tcbs@[t].caller_slot_in is None,
        tcbs_same_except(a, b, t),
        b.tcbs@[t].state.reply_object is None,
        b.tcbs@[t].bound_notification == a.tcbs@[t].bound_notification,
        b.tcbs@[t].sched_context == a.tcbs@[t].sched_context,
        b.tcbs@[t].caller_slot == a.tcbs@[t].caller_slot,
        b.tcbs@[t].caller_slot_in == a.tcbs@[t].caller_slot_in,
        b.tcbs@[t].arch.regs@.len() == a.tcbs@[t].arch.regs@.len(),
        b.tcbs@[t].arch.mrs@.len() == a.tcbs@[t].arch.mrs@.len(),
        b.tcbs@[t].caps_or_badges@.len() == a.tcbs@[t].caps_or_badges@.len(),
        b.tcbs@[t].extra_caps@.len() == a.tcbs@[t].extra_caps@.len(),
        same_eps(a, b),
        same_ntfns(a, b),
        same_replies(a, b),
        same_scs(a, b),
        same_cur(a, b),
        b.ready_queue@ == a.ready_queue@ || b.ready_queue@ == a.ready_queue@.push(t as usize),
        b.release_queue@ == a.release_queue@,
        b.switch_candidate == a.switch_candidate || b.switch_candidate == Some(t as usize),
        b.timeout_event == a.timeout_event || (b.timeout_event matches Some(ev) && ev.tcb
            == t as usize),
    ensures
        b.wf(),
{
    a.lemma_len_bounds();
    assert(a.tcb_ok(t));
    assert(a.tcbs@[t].state.reply_object is None);
    assert(a.tcbs@[t].caller_slot_in is None);
    assert forall|tt: int| 0 <= tt < b.tcbs@.len() implies b.tcb_ok(tt) by {
        assert(a.tcb_ok(tt));
        match a.tcbs@[tt].caller_slot {
            Some(c) => {
                if c.caller as int == t {
                    assert(b.tcbs@[t].caller_slot_in == a.tcbs@[t].caller_slot_in);
                }
            },
            None => {},
        }
        match a.tcbs@[tt].caller_slot_in {
            Some(h) => {
                if h as int == t {
                    assert(b.tcbs@[t].caller_slot == a.tcbs@[t].caller_slot);
                }
            },
            None => {},
        }
    }
    assert forall|e: int| 0 <= e < b.endpoints@.len() implies b.ep_ok(e) by {
        assert(a.ep_ok(e));
        assert forall|i: int| 0 <= i < a.ep_queue(e).len() implies a.ep_queue(e)[i] as int
            != t by {
            assert(!unqueued(a.tcbs@[a.ep_queue(e)[i] as int].state.ts_type));
        }
    }
    assert forall|m: int| 0 <= m < b.notifications@.len() implies b.ntfn_ok(m) by {
        assert(a.ntfn_ok(m));
        assert forall|i: int| 0 <= i < a.ntfn_queue(m).len() implies a.ntfn_queue(m)[i] as int
            != t by {
            assert(!unqueued(a.tcbs@[a.ntfn_queue(m)[i] as int].state.ts_type));
        }
        assert(b.notifications@[m].bound_tcb matches Some(t2) ==> b.tcbs@[t2 as int].bound_notification
            == a.tcbs@[t2 as int].bound_notification);
    }
    assert forall|r: int| 0 <= r < b.replies@.len() implies b.reply_ok(r) by {
        assert(a.reply_ok(r));
        match a.replies@[r].tcb {
            Some(t2) => {
                assert(a.tcbs@[t2 as int].state.reply_object == Some(r as usize));
                assert(t2 as int != t);
            },
            None => {},
        }
    }
    assert forall|s: int| 0 <= s < b.scs@.len() implies b.sc_ok(s) by {
        assert(a.sc_ok(s));
        match a.scs@[s].tcb {
            Some(t2) => {
                assert(b.tcbs@[t2 as int].sched_context == a.tcbs@[t2 as int].sched_context);
            },
            None => {},
        }
    }
    assert(b.sched_ok()) by {
        broadcast use vstd::seq_lib::lemma_seq_contains_after_push;

        assert forall|i: int| 0 <= i < b.ready_queue@.len() implies b.valid_tcb(
            #[trigger] b.ready_queue@[i] as int,
        ) by {
            if i < a.ready_queue@.len() {
                assert(a.sched_ok());
            } else {
                assert(b.ready_queue@[i] == t as usize);
            }
        }
    }
}

/// Well-formedness carries over to the state reached by installing a
/// caller capability: the caller blocks awaiting the reply and the
/// receiver's caller slot names it.
pub proof fn lemma_wf_after_caller_cap_install(a: Kernel, b: Kernel, receiver: int, caller: int)
    requires
        a.wf(),
        a.valid_tcb(receiver),
        a.valid_tcb(caller),
        receiver != caller,
        unqueued(a.tcbs@[caller].state.ts_type),
        a.tcbs@[receiver].caller_slot is None,
        a.tcbs@[caller].caller_slot_in is None,
        a.tcbs@[caller].state.reply_object is None,
        tcbs_same_except2(a, b, receiver, caller),
        b.tcbs@[caller] == (Tcb {
            state: ThreadStateRecord {
                ts_type: ThreadState::BlockedOnReply,
                ..a.tcbs@[caller].state
            },
            caller_slot_in: Some(receiver as usize),
            ..a.tcbs@[caller]
        }),
        b.tcbs@[receiver] == (Tcb {
            caller_slot: Some(
                CallerCap {
                    caller: caller as usize,
                    can_grant: b.tcbs@[receiver].caller_slot->0.can_grant,
                },
            ),
            ..a.tcbs@[receiver]
        }),
        same_eps(a, b),
        same_ntfns(a, b),
        same_replies(a, b),
        same_scs(a, b),
        same_cur(a, b),
        b.ready_queue@ == a.ready_queue@,
        b.release_queue@ == a.release_queue@,
        b.switch_candidate == a.switch_candidate,
        b.timeout_event == a.timeout_event,
    ensures
        b.wf(),
{
    a.lemma_len_bounds();
    assert(a.tcb_ok(caller));
    assert(a.tcb_ok(receiver));
    assert forall|tt: int| 0 <= tt < b.tcbs@.len() implies b.tcb_ok(tt) by {
        assert(a.tcb_ok(tt));
        match a.tcbs@[tt].caller_slot {
            Some(c) => {
                if c.caller as int == caller {
                    assert(a.tcbs@[caller].caller_slot_in == Some(tt as usize));
                    assert(false);
                }
                if c.caller as int == receiver {
                    assert(a.tcbs@[receiver].caller_slot_in == Some(tt as usize));
                    assert(b.tcbs@[receiver].caller_slot_in == Some(tt as usize));
                }
            },
            None => {},
        }
        match a.tcbs@[tt].caller_slot_in {
            Some(h) => {
                if h as int == receiver {
                    assert(a.tcbs@[receiver].caller_slot matches Some(c) && c.caller
                        == tt as usize);
                    assert(false);
                }
                if h as int == caller {
                    assert(a.tcbs@[caller].caller_slot matches Some(c) && c.caller
                        == tt as usize);
                    assert(b.tcbs@[caller].caller_slot == a.tcbs@[caller].caller_slot);
                }
            },
            None => {},
        }
    }
    assert forall|e: int| 0 <= e < b.endpoints@.len() implies b.ep_ok(e) by {
        assert(a.ep_ok(e));
        assert forall|i: int| 0 <= i < a.ep_queue(e).len() implies b.tcbs@[#[trigger] a.ep_queue(
            e,
        )[i] as int].state == a.tcbs@[a.ep_queue(e)[i] as int].state by {
            assert(!unqueued(a.tcbs@[a.ep_queue(e)[i] as int].state.ts_type));
            assert(a.ep_queue(e)[i] as int != caller);
            if a.ep_queue(e)[i] as int == receiver {
            }
        }
    }
    assert forall|m: int| 0 <= m < b.notifications@.len() implies b.ntfn_ok(m) by {
        assert(a.ntfn_ok(m));
        assert forall|i: int| 0 <= i < a.ntfn_queue(m).len() implies b.tcbs@[#[trigger] a.ntfn_queue(
            m,
        )[i] as int].state == a.tcbs@[a.ntfn_queue(m)[i] as int].state by {
            assert(a.ntfn_queue(m)[i] as int != caller);
        }
    }
    assert forall|r: int| 0 <= r < b.replies@.len() implies b.reply_ok(r) by {
        assert(a.reply_ok(r));
        match a.replies@[r].tcb {
            Some(t2) => {
                assert(b.tcbs@[t2 as int].state.reply_object
                    == a.tcbs@[t2 as int].state.reply_object);
            },
            None => {},
        }
    }
    assert forall|s: int| 0 <= s < b.scs@.len() implies b.sc_ok(s) by {
        assert(a.sc_ok(s));
        match a.scs@[s].tcb {
            Some(t2) => {
                assert(b.tcbs@[t2 as int].sched_context == a.tcbs@[t2 as int].sched_context);
            },
            None => {},
        }
    }
}


/// Well-formedness carries over to the state reached by blocking one
/// running thread on an endpoint: the thread is stamped with the blocked
/// direction and appended, and the endpoint takes that direction. A
/// receiver may link a reply object while blocking.
pub proof fn lemma_wf_after_ep_block(a: Kernel, b: Kernel, e: int, t: int, dir_send: bool)
    requires
        a.wf(),
        a.valid_ep(e),
        a.valid_tcb(t),
        unqueued(a.tcbs@[t].state.ts_type),
        a.tcbs@[t].state.ts_type == ThreadState::BlockedOnReply ==> a.tcbs@[t].state.reply_object
            is None && a.tcbs@[t].caller_slot_in is None,
        a.endpoints@[e].state == EPState::Idle || a.endpoints@[e].state == (if dir_send {
            EPState::Send
        } else {
            EPState::Recv
        }),
        tcbs_same_except(a, b, t),
        b.tcbs@[t] == (Tcb { state: b.tcbs@[t].state, ..a.tcbs@[t] }),
        b.tcbs@[t].state.ts_type == (if dir_send {
            ThreadState::BlockedOnSend
        } else {
            ThreadState::BlockedOnReceive
        }),
        b.tcbs@[t].state.blocking_object == Some(e as usize),
        (b.tcbs@[t].state.reply_object matches Some(r) ==> !dir_send && a.valid_reply(r as int)
            && a.replies@[r as int].tcb is None && replies_same_except(a, b, r as int)
            && b.replies@[r as int] == (Reply { tcb: Some(t as usize), ..a.replies@[r as int] })),
        (b.tcbs@[t].state.reply_object is None ==> same_replies(a, b)),
        eps_same_except(a, b, e),
        b.endpoints@[e].queue@ == a.ep_queue(e).push(t as usize),
        b.endpoints@[e].state == (if dir_send {
            EPState::Send
        } else {
            EPState::Recv
        }),
        same_ntfns(a, b),
        same_scs(a, b),
        same_cur(a, b),
        b.ready_queue@ == a.ready_queue@,
        b.release_queue@ == a.release_queue@,
        b.switch_candidate == a.switch_candidate,
        b.timeout_event == a.timeout_event,
    ensures
        b.wf(),
{
    broadcast use vstd::seq_lib::lemma_seq_contains_after_push;

    a.lemma_len_bounds();
    assert(a.tcb_ok(t));
    assert(a.ep_ok(e));
    assert(a.tcbs@[t].state.reply_object is None);
    assert(a.tcbs@[t].caller_slot_in is None);
    let oldq = a.ep_queue(e);
    let newq = b.ep_queue(e);
    assert forall|i: int| 0 <= i < oldq.len() implies oldq[i] != t as usize by {
        assert(!unqueued(a.tcbs@[oldq[i] as int].state.ts_type));
    }
    assert forall|tt: int| 0 <= tt < b.tcbs@.len() implies b.tcb_ok(tt) by {
        assert(a.tcb_ok(tt));
        if tt == t {
            assert(newq[newq.len() - 1] == t as usize);
            assert(newq.contains(t as usize));
        } else {
            let tcb = a.tcbs@[tt];
            if tcb.state.ts_type == ThreadState::BlockedOnSend || tcb.state.ts_type
                == ThreadState::BlockedOnReceive {
                let m = tcb.state.blocking_object->0;
                if m as int == e {
                    assert(oldq.contains(tt as usize));
                    assert(newq.contains(tt as usize));
                }
            }
            match a.tcbs@[tt].caller_slot_in {
                Some(h) => {
                    if h as int == t {
                        assert(b.tcbs@[t].caller_slot == a.tcbs@[t].caller_slot);
                    }
                },
                None => {},
            }
            match a.tcbs@[tt].caller_slot {
                Some(c) => {
                    if c.caller as int == t {
                        assert(b.tcbs@[t].caller_slot_in == a.tcbs@[t].caller_slot_in);
                    }
                },
                None => {},
            }
        }
    }
    assert forall|e2: int| 0 <= e2 < b.endpoints@.len() implies b.ep_ok(e2) by {
        assert(a.ep_ok(e2));
        if e2 == e {
            assert(distinct_seq(newq));
            assert forall|i: int| 0 <= i < newq.len() implies {
                let tcb = b.tcbs@[#[trigger] newq[i] as int];
                &&& b.valid_tcb(newq[i] as int)
                &&& tcb.state.ts_type == (if dir_send {
                    ThreadState::BlockedOnSend
                } else {
                    ThreadState::BlockedOnReceive
                })
                &&& tcb.state.blocking_object == Some(e as usize)
            } by {
                if i < oldq.len() {
                    assert(newq[i] == oldq[i]);
                    assert(oldq.contains(oldq[i]));
                    assert(a.endpoints@[e].state != EPState::Idle);
                } else {
                    assert(newq[i] == t as usize);
                }
            }
        } else {
            assert forall|i: int| 0 <= i < a.ep_queue(e2).len() implies a.ep_queue(e2)[i]
                != t as usize by {
                assert(!unqueued(a.tcbs@[a.ep_queue(e2)[i] as int].state.ts_type));
            }
        }
    }
    assert forall|m: int| 0 <= m < b.notifications@.len() implies b.ntfn_ok(m) by {
        assert(a.ntfn_ok(m));
        assert forall|i: int| 0 <= i < a.ntfn_queue(m).len() implies a.ntfn_queue(m)[i]
            != t as usize by {
            assert(!unqueued(a.tcbs@[a.ntfn_queue(m)[i] as int].state.ts_type));
        }
        assert(b.notifications@[m].bound_tcb matches Some(t2) ==> b.tcbs@[t2 as int].bound_notification
            == a.tcbs@[t2 as int].bound_notification);
    }
    assert forall|r2: int| 0 <= r2 < b.replies@.len() implies b.reply_ok(r2) by {
        assert(a.reply_ok(r2));
        match a.replies@[r2].tcb {
            Some(t2) => {
                assert(a.tcbs@[t2 as int].state.reply_object == Some(r2 as usize));
                assert(t2 as int != t);
            },
            None => {},
        }
        match b.replies@[r2].tcb {
            Some(t2) => {
                if t2 as int == t {
                    assert(b.tcbs@[t].state.reply_object == Some(r2 as usize));
                }
            },
            None => {},
        }
    }
    assert forall|s: int| 0 <= s < b.scs@.len() implies b.sc_ok(s) by {
        assert(a.sc_ok(s));
        match a.scs@[s].tcb {
            Some(t2) => {
                assert(b.tcbs@[t2 as int].sched_context == a.tcbs@[t2 as int].sched_context);
            },
            None => {},
        }
    }
}

/// Well-formedness carries over to the state reached by donating a
/// scheduling context to a thread without one.
pub proof fn lemma_wf_after_sc_donate(a: Kernel, b: Kernel, s: int, to: int)
    requires
        a.wf(),
        a.valid_sc(s),
        a.valid_tcb(to),
        a.tcbs@[to].sched_context is None,
        (a.scs@[s].tcb matches Some(f) ==> f as int != to && tcbs_same_except2(
            a,
            b,
            f as int,
            to,
        ) && b.tcbs@[f as int] == (Tcb { sched_context: None, ..a.tcbs@[f as int] })),
        (a.scs@[s].tcb is None ==> tcbs_same_except(a, b, to)),
        b.tcbs@.len() == a.tcbs@.len(),
        b.tcbs@[to] == (Tcb { sched_context: Some(s as usize), ..a.tcbs@[to] }),
        same_eps(a, b),
        same_ntfns(a, b),
        same_replies(a, b),
        scs_same_except(a, b, s),
        b.scs@[s] == (SchedContext { tcb: Some(to as usize), ..a.scs@[s] }),
        same_cur(a, b),
        b.ready_queue@ == a.ready_queue@,
        b.release_queue@ == a.release_queue@,
        b.switch_candidate == a.switch_candidate,
        b.timeout_event == a.timeout_event,
    ensures
        b.wf(),
{
    a.lemma_len_bounds();
    assert(a.tcb_ok(to));
    assert(a.sc_ok(s));
    assert forall|tt: int| 0 <= tt < b.tcbs@.len() implies b.tcb_ok(tt) by {
        assert(a.tcb_ok(tt));
        match a.tcbs@[tt].sched_context {
            Some(s2) => {
                assert(a.scs@[s2 as int].tcb == Some(tt as usize));
                if s2 as int == s {
                    assert(a.scs@[s].tcb == Some(tt as usize));
                }
            },
            None => {},
        }
        match a.tcbs@[tt].caller_slot {
            Some(c) => {
                assert(b.tcbs@[c.caller as int].caller_slot_in
                    == a.tcbs@[c.caller as int].caller_slot_in);
            },
            None => {},
        }
        match a.tcbs@[tt].caller_slot_in {
            Some(h) => {
                assert(b.tcbs@[h as int].caller_slot == a.tcbs@[h as int].caller_slot);
            },
            None => {},
        }
    }
    assert forall|e: int| 0 <= e < b.endpoints@.len() implies b.ep_ok(e) by {
        assert(a.ep_ok(e));
        assert forall|i: int| 0 <= i < a.ep_queue(e).len() implies b.tcbs@[#[trigger] a.ep_queue(
            e,
        )[i] as int].state == a.tcbs@[a.ep_queue(e)[i] as int].state by {}
    }
    assert forall|m: int| 0 <= m < b.notifications@.len() implies b.ntfn_ok(m) by {
        assert(a.ntfn_ok(m));
        assert forall|i: int| 0 <= i < a.ntfn_queue(m).len() implies b.tcbs@[#[trigger] a.ntfn_queue(
            m,
        )[i] as int].state == a.tcbs@[a.ntfn_queue(m)[i] as int].state by {}
        assert(b.notifications@[m].bound_tcb matches Some(t2) ==> b.tcbs@[t2 as int].bound_notification
            == a.tcbs@[t2 as int].bound_notification);
    }
    assert forall|r2: int| 0 <= r2 < b.replies@.len() implies b.reply_ok(r2) by {
        assert(a.reply_ok(r2));
        match a.replies@[r2].tcb {
            Some(t2) => {
                assert(b.tcbs@[t2 as int].state.reply_object
                    == a.tcbs@[t2 as int].state.reply_object);
            },
            None => {},
        }
    }
    assert forall|s2: int| 0 <= s2 < b.scs@.len() implies b.sc_ok(s2) by {
        assert(a.sc_ok(s2));
        if s2 != s {
            match a.scs@[s2].tcb {
                Some(t2) => {
                    assert(a.tcbs@[t2 as int].sched_context == Some(s2 as usize));
                    assert(t2 as int != to);
                    match a.scs@[s].tcb {
                        Some(f) => {
                            if t2 as int == f as int {
                                assert(a.tcbs@[f as int].sched_context == Some(s as usize));
                            }
                        },
                        None => {},
                    }
                },
                None => {},
            }
        }
    }
}



/// Everything a filter keeps was in the sequence.
pub proof fn lemma_filter_subset(s: Seq<usize>, pred: spec_fn(usize) -> bool)
    ensures
        forall|x: usize| #[trigger] s.filter(pred).contains(x) ==> s.contains(x),
    decreases s.len(),
{
    reveal(Seq::filter);
    if s.len() > 0 {
        lemma_filter_subset(s.drop_last(), pred);
        assert forall|x: usize| #[trigger] s.filter(pred).contains(x) implies s.contains(x) by {
            let f = s.filter(pred);
            let sub = s.drop_last().filter(pred);
            let w = choose|w: int| 0 <= w < f.len() && f[w] == x;
            if pred(s.last()) {
                if w < sub.len() {
                    assert(sub[w] == x);
                    assert(sub.contains(x));
                    assert(s.drop_last().contains(x));
                    let w2 = choose|w2: int|
                        0 <= w2 < s.drop_last().len() && s.drop_last()[w2] == x;
                    assert(s[w2] == x);
                } else {
                    assert(x == s.last());
                    assert(s[s.len() - 1] == x);
                }
            } else {
                assert(sub[w] == x);
                assert(sub.contains(x));
                assert(s.drop_last().contains(x));
                let w2 = choose|w2: int| 0 <= w2 < s.drop_last().len() && s.drop_last()[w2] == x;
                assert(s[w2] == x);
            }
        }
    }
}

/// Filtering a duplicate-free sequence keeps it duplicate-free.
pub proof fn lemma_filter_distinct(s: Seq<usize>, pred: spec_fn(usize) -> bool)
    requires
        distinct_seq(s),
    ensures
        distinct_seq(s.filter(pred)),
    decreases s.len(),
{
    reveal(Seq::filter);
    if s.len() > 0 {
        assert(distinct_seq(s.drop_last())) by {
            assert forall|i: int, j: int|
                0 <= i < j < s.drop_last().len() implies s.drop_last()[i] != s.drop_last()[j] by {
                assert(s[i] != s[j]);
            }
        }
        lemma_filter_distinct(s.drop_last(), pred);
        lemma_filter_subset(s.drop_last(), pred);
        let f = s.filter(pred);
        let sub = s.drop_last().filter(pred);
        if pred(s.last()) {
            assert(!s.drop_last().contains(s.last())) by {
                if s.drop_last().contains(s.last()) {
                    let w = choose|w: int|
                        0 <= w < s.drop_last().len() && s.drop_last()[w] == s.last();
                    assert(s[w] == s[s.len() - 1]);
                }
            }
            assert forall|i: int, j: int| 0 <= i < j < f.len() implies f[i] != f[j] by {
                if j == f.len() - 1 {
                    assert(f[j] == s.last());
                    assert(f[i] == sub[i]);
                    assert(sub.contains(sub[i]));
                    assert(s.drop_last().contains(sub[i]));
                } else {
                    assert(f[i] == sub[i] && f[j] == sub[j]);
                }
            }
        }
    }
}


/// Well-formedness carries over to the state reached by cancelling every
/// thread on an endpoint: the endpoint is idle and empty, every
/// previously queued thread is restarted with its reply object unlinked,
/// and all of them were handed to the scheduler.
pub proof fn lemma_wf_after_ep_cancel_all(a: Kernel, b: Kernel, e: int)
    requires
        a.wf(),
        a.valid_ep(e),
        b.tcbs@.len() == a.tcbs@.len(),
        forall|j: int| 0 <= j < a.ep_queue(e).len() ==> b.tcbs@[#[trigger] a.ep_queue(e)[j] as int]
            == (Tcb {
            state: ThreadStateRecord {
                ts_type: ThreadState::Restart,
                reply_object: None,
                ..a.tcbs@[a.ep_queue(e)[j] as int].state
            },
            ..a.tcbs@[a.ep_queue(e)[j] as int]
        }),
        forall|k: int| 0 <= k < a.tcbs@.len() && !a.ep_queue(e).contains(k as usize)
            ==> #[trigger] b.tcbs@[k] == a.tcbs@[k],
        eps_same_except(a, b, e),
        b.endpoints@[e].state == EPState::Idle,
        b.endpoints@[e].queue@ == Seq::<usize>::empty(),
        same_ntfns(a, b),
        b.replies@.len() == a.replies@.len(),
        forall|r: int| 0 <= r < a.replies@.len() ==> #[trigger] b.replies@[r] == (
        if a.replies@[r].tcb matches Some(t) && a.ep_queue(e).contains(t) {
            Reply { tcb: None, ..a.replies@[r] }
        } else {
            a.replies@[r]
        }),
        same_scs(a, b),
        same_cur(a, b),
        b.ready_queue@ == a.ready_queue@ + a.ep_queue(e),
        b.release_queue@ == a.release_queue@,
        b.switch_candidate == a.switch_candidate,
        b.timeout_event == a.timeout_event,
    ensures
        b.wf(),
{
    a.lemma_len_bounds();
    assert(a.ep_ok(e));
    let oldq = a.ep_queue(e);
    assert forall|tt: int| 0 <= tt < b.tcbs@.len() implies b.tcb_ok(tt) by {
        assert(a.tcb_ok(tt));
        if oldq.contains(tt as usize) {
            let j = choose|j: int| 0 <= j < oldq.len() && oldq[j] == tt as usize;
            assert(b.tcbs@[tt] == (Tcb {
                state: ThreadStateRecord {
                    ts_type: ThreadState::Restart,
                    reply_object: None,
                    ..a.tcbs@[tt].state
                },
                ..a.tcbs@[tt]
            }));
            assert(a.tcbs@[tt].caller_slot_in is None);
            match a.tcbs@[tt].caller_slot {
                Some(c) => {
                    assert(a.tcb_ok(c.caller as int));
                    assert(!oldq.contains(c.caller));
                    assert(b.tcbs@[c.caller as int] == a.tcbs@[c.caller as int]);
                },
                None => {},
            }
        } else {
            match a.tcbs@[tt].state.reply_object {
                Some(r) => {
                    assert(a.reply_ok(r as int));
                    assert(a.replies@[r as int].tcb == Some(tt as usize));
                    assert(b.replies@[r as int] == a.replies@[r as int]);
                },
                None => {},
            }
            match a.tcbs@[tt].caller_slot {
                Some(c) => {
                    assert(a.tcb_ok(c.caller as int));
                    assert(b.tcbs@[c.caller as int].caller_slot_in
                        == a.tcbs@[c.caller as int].caller_slot_in);
                },
                None => {},
            }
            match a.tcbs@[tt].caller_slot_in {
                Some(h) => {
                    if oldq.contains(h) {
                        let j = choose|j: int| 0 <= j < oldq.len() && oldq[j] == h;
                        assert(b.tcbs@[h as int] == (Tcb {
                            state: ThreadStateRecord {
                                ts_type: ThreadState::Restart,
                                reply_object: None,
                                ..a.tcbs@[h as int].state
                            },
                            ..a.tcbs@[h as int]
                        }));
                    }
                    assert(b.tcbs@[h as int].caller_slot == a.tcbs@[h as int].caller_slot);
                },
                None => {},
            }
        }
    }
    assert forall|e2: int| 0 <= e2 < b.endpoints@.len() implies b.ep_ok(e2) by {
        assert(a.ep_ok(e2));
        if e2 != e {
            assert forall|i: int| 0 <= i < a.ep_queue(e2).len() implies !oldq.contains(
                #[trigger] a.ep_queue(e2)[i],
            ) by {
                if oldq.contains(a.ep_queue(e2)[i]) {
                    let x = a.ep_queue(e2)[i];
                    assert(a.tcbs@[x as int].state.blocking_object == Some(e as usize));
                    assert(a.tcbs@[x as int].state.blocking_object == Some(e2 as usize));
                }
            }
        }
    }
    assert forall|m: int| 0 <= m < b.notifications@.len() implies b.ntfn_ok(m) by {
        assert(a.ntfn_ok(m));
        assert forall|i: int| 0 <= i < a.ntfn_queue(m).len() implies !oldq.contains(
            #[trigger] a.ntfn_queue(m)[i],
        ) by {
            if oldq.contains(a.ntfn_queue(m)[i]) {
                assert(a.tcbs@[a.ntfn_queue(m)[i] as int].state.ts_type
                    == ThreadState::BlockedOnNotification);
            }
        }
        match a.notifications@[m].bound_tcb {
            Some(t2) => {
                assert(b.tcbs@[t2 as int].bound_notification
                    == a.tcbs@[t2 as int].bound_notification);
            },
            None => {},
        }
    }
    assert forall|r: int| 0 <= r < b.replies@.len() implies b.reply_ok(r) by {
        assert(a.reply_ok(r));
        match b.replies@[r].tcb {
            Some(t2) => {
                assert(a.replies@[r].tcb == Some(t2));
                assert(!oldq.contains(t2));
                assert(b.tcbs@[t2 as int].state.reply_object == Some(r as usize));
            },
            None => {},
        }
    }
    assert forall|s: int| 0 <= s < b.scs@.len() implies b.sc_ok(s) by {
        assert(a.sc_ok(s));
        match a.scs@[s].tcb {
            Some(t2) => {
                assert(b.tcbs@[t2 as int].sched_context == a.tcbs@[t2 as int].sched_context);
            },
            None => {},
        }
    }
    assert(b.sched_ok()) by {
        assert forall|i: int| 0 <= i < b.ready_queue@.len() implies b.valid_tcb(
            #[trigger] b.ready_queue@[i] as int,
        ) by {
            if i < a.ready_queue@.len() {
                assert(a.sched_ok());
            } else {
                assert(b.ready_queue@[i] == oldq[i - a.ready_queue@.len()]);
                assert(oldq.contains(oldq[i - a.ready_queue@.len()]));
            }
        }
    }
}


/// Well-formedness carries over to the state reached by cancelling every
/// matching-badge sender on an endpoint: survivors keep their order and
/// state, the removed are restarted and handed to the scheduler, and the
/// endpoint stays in the send state exactly when a sender survives.
pub proof fn lemma_wf_after_badged_cancel(a: Kernel, b: Kernel, e: int, badge: u64)
    requires
        a.wf(),
        a.valid_ep(e),
        a.endpoints@[e].state == EPState::Send,
        b.tcbs@.len() == a.tcbs@.len(),
        forall|j: int| 0 <= j < a.ep_queue(e).len() ==> b.tcbs@[#[trigger] a.ep_queue(e)[j] as int]
            == (if a.tcbs@[a.ep_queue(e)[j] as int].state.blocking_badge == badge {
            Tcb {
                state: ThreadStateRecord {
                    ts_type: ThreadState::Restart,
                    ..a.tcbs@[a.ep_queue(e)[j] as int].state
                },
                ..a.tcbs@[a.ep_queue(e)[j] as int]
            }
        } else {
            a.tcbs@[a.ep_queue(e)[j] as int]
        }),
        forall|k: int| 0 <= k < a.tcbs@.len() && !a.ep_queue(e).contains(k as usize)
            ==> #[trigger] b.tcbs@[k] == a.tcbs@[k],
        eps_same_except(a, b, e),
        b.endpoints@[e].queue@ == a.ep_queue(e).filter(
            |x: usize| a.tcbs@[x as int].state.blocking_badge != badge,
        ),
        b.endpoints@[e].state == (if a.ep_queue(e).filter(
            |x: usize| a.tcbs@[x as int].state.blocking_badge != badge,
        ).len() == 0 {
            EPState::Idle
        } else {
            EPState::Send
        }),
        same_ntfns(a, b),
        same_replies(a, b),
        same_scs(a, b),
        same_cur(a, b),
        b.ready_queue@ == a.ready_queue@ + a.ep_queue(e).filter(
            |x: usize| a.tcbs@[x as int].state.blocking_badge == badge,
        ),
        b.release_queue@ == a.release_queue@,
        b.switch_candidate == a.switch_candidate,
        b.timeout_event == a.timeout_event,
    ensures
        b.wf(),
{
    a.lemma_len_bounds();
    assert(a.ep_ok(e));
    let oldq = a.ep_queue(e);
    let keep_pred = |x: usize| a.tcbs@[x as int].state.blocking_badge != badge;
    let gone_pred = |x: usize| a.tcbs@[x as int].state.blocking_badge == badge;
    let keep = oldq.filter(keep_pred);
    let gone = oldq.filter(gone_pred);
    oldq.filter_lemma(keep_pred);
    oldq.filter_lemma(gone_pred);
    lemma_filter_subset(oldq, keep_pred);
    lemma_filter_subset(oldq, gone_pred);
    lemma_filter_distinct(oldq, keep_pred);
    assert forall|j: int| 0 <= j < oldq.len() implies a.tcbs@[#[trigger] oldq[j] as int].state.ts_type
        == ThreadState::BlockedOnSend && a.tcbs@[oldq[j] as int].state.blocking_object == Some(
        e as usize,
    ) && a.tcbs@[oldq[j] as int].state.reply_object is None
        && a.tcbs@[oldq[j] as int].caller_slot_in is None by {
        assert(oldq.contains(oldq[j]));
        assert(a.tcb_ok(oldq[j] as int));
    }
    assert forall|tt: int| 0 <= tt < b.tcbs@.len() implies b.tcb_ok(tt) by {
        assert(a.tcb_ok(tt));
        if oldq.contains(tt as usize) {
            let j = choose|j: int| 0 <= j < oldq.len() && oldq[j] == tt as usize;
            if a.tcbs@[tt].state.blocking_badge == badge {
                assert(b.tcbs@[tt] == (Tcb {
                    state: ThreadStateRecord {
                        ts_type: ThreadState::Restart,
                        ..a.tcbs@[tt].state
                    },
                    ..a.tcbs@[tt]
                }));
                match a.tcbs@[tt].caller_slot {
                    Some(c) => {
                        assert(a.tcb_ok(c.caller as int));
                        assert(!oldq.contains(c.caller));
                        assert(b.tcbs@[c.caller as int] == a.tcbs@[c.caller as int]);
                    },
                    None => {},
                }
            } else {
                assert(b.tcbs@[tt] == a.tcbs@[tt]);
                assert(keep.contains(tt as usize));
                assert(b.ep_queue(e).contains(tt as usize));
                match a.tcbs@[tt].caller_slot {
                    Some(c) => {
                        assert(a.tcb_ok(c.caller as int));
                        assert(!oldq.contains(c.caller));
                        assert(b.tcbs@[c.caller as int] == a.tcbs@[c.caller as int]);
                    },
                    None => {},
                }
            }
        } else {
            match a.tcbs@[tt].state.blocking_object {
                Some(m) => {
                    if (a.tcbs@[tt].state.ts_type == ThreadState::BlockedOnSend
                        || a.tcbs@[tt].state.ts_type == ThreadState::BlockedOnReceive) && m as int
                        == e {
                        assert(oldq.contains(tt as usize));
                        assert(false);
                    }
                },
                None => {},
            }
            match a.tcbs@[tt].caller_slot {
                Some(c) => {
                    assert(a.tcb_ok(c.caller as int));
                    assert(b.tcbs@[c.caller as int].caller_slot_in
                        == a.tcbs@[c.caller as int].caller_slot_in);
                },
                None => {},
            }
            match a.tcbs@[tt].caller_slot_in {
                Some(h) => {
                    if oldq.contains(h) {
                        let j = choose|j: int| 0 <= j < oldq.len() && oldq[j] == h;
                    }
                    assert(b.tcbs@[h as int].caller_slot == a.tcbs@[h as int].caller_slot);
                },
                None => {},
            }
        }
    }
    assert forall|e2: int| 0 <= e2 < b.endpoints@.len() implies b.ep_ok(e2) by {
        assert(a.ep_ok(e2));
        if e2 != e {
            assert forall|i: int| 0 <= i < a.ep_queue(e2).len() implies !oldq.contains(
                #[trigger] a.ep_queue(e2)[i],
            ) by {
                if oldq.contains(a.ep_queue(e2)[i]) {
                    let x = a.ep_queue(e2)[i];
                    assert(a.tcbs@[x as int].state.blocking_object == Some(e as usize));
                    assert(a.tcbs@[x as int].state.blocking_object == Some(e2 as usize));
                }
            }
        } else {
            assert(distinct_seq(keep));
            assert forall|i: int| 0 <= i < keep.len() implies {
                let tcb = b.tcbs@[#[trigger] keep[i] as int];
                &&& b.valid_tcb(keep[i] as int)
                &&& tcb.state.ts_type == ThreadState::BlockedOnSend
                &&& tcb.state.blocking_object == Some(e as usize)
            } by {
                assert(keep.contains(keep[i]));
                assert(oldq.contains(keep[i]));
                assert(keep_pred(keep[i]));
                let j = choose|j: int| 0 <= j < oldq.len() && oldq[j] == keep[i];
                assert(b.tcbs@[keep[i] as int] == a.tcbs@[keep[i] as int]);
            }
        }
    }
    assert forall|m: int| 0 <= m < b.notifications@.len() implies b.ntfn_ok(m) by {
        assert(a.ntfn_ok(m));
        assert forall|i: int| 0 <= i < a.ntfn_queue(m).len() implies !oldq.contains(
            #[trigger] a.ntfn_queue(m)[i],
        ) by {
            if oldq.contains(a.ntfn_queue(m)[i]) {
                assert(a.tcbs@[a.ntfn_queue(m)[i] as int].state.ts_type
                    == ThreadState::BlockedOnNotification);
            }
        }
        match a.notifications@[m].bound_tcb {
            Some(t2) => {
                assert(b.tcbs@[t2 as int].bound_notification
                    == a.tcbs@[t2 as int].bound_notification);
            },
            None => {},
        }
    }
    assert forall|r: int| 0 <= r < b.replies@.len() implies b.reply_ok(r) by {
        assert(a.reply_ok(r));
        match a.replies@[r].tcb {
            Some(t2) => {
                assert(a.tcbs@[t2 as int].state.reply_object == Some(r as usize));
                assert(!oldq.contains(t2));
                assert(b.tcbs@[t2 as int] == a.tcbs@[t2 as int]);
            },
            None => {},
        }
    }
    assert forall|s2: int| 0 <= s2 < b.scs@.len() implies b.sc_ok(s2) by {
        assert(a.sc_ok(s2));
        match a.scs@[s2].tcb {
            Some(t2) => {
                assert(b.tcbs@[t2 as int].sched_context == a.tcbs@[t2 as int].sched_context);
            },
            None => {},
        }
    }
    assert(b.sched_ok()) by {
        assert forall|i: int| 0 <= i < b.ready_queue@.len() implies b.valid_tcb(
            #[trigger] b.ready_queue@[i] as int,
        ) by {
            if i < a.ready_queue@.len() {
                assert(a.sched_ok());
            } else {
                assert(b.ready_queue@[i] == gone[i - a.ready_queue@.len()]);
                assert(gone.contains(gone[i - a.ready_queue@.len()]));
                assert(oldq.contains(gone[i - a.ready_queue@.len()]));
            }
        }
    }
}

/// No thread occurs twice in the queue.
pub open spec fn distinct_seq(q: Seq<usize>) -> bool {
    forall|i: int, j: int| 0 <= i < j < q.len() ==> q[i] != q[j]
}

/// Remove the one occurrence of `t` from a wait queue.
pub(crate) fn queue_remove(q: &mut Vec<usize>, t: usize) -> (ix: usize)
    requires
        old(q)@.contains(t),
        distinct_seq(old(q)@),
    ensures
        ix < old(q)@.len(),
        old(q)@[ix as int] == t,
        final(q)@ == old(q)@.remove(ix as int),
        !final(q)@.contains(t),
        forall|x: usize| #[trigger] final(q)@.contains(x) <==> (old(q)@.contains(x) && x != t),
        distinct_seq(final(q)@),
{
    let mut i: usize = 0;
    while i < q.len() && q[i] != t
        invariant
            i <= q@.len(),
            q@.contains(t),
            distinct_seq(q@),
            forall|k: int| 0 <= k < i ==> q@[k] != t,
        decreases q@.len() - i,
    {
        i = i + 1;
    }
    proof {
        let witness = choose|w: int| 0 <= w < q@.len() && q@[w] == t;
        assert(q@[witness] == t);
        assert(i < q@.len());
    }
    q.remove(i);
    proof {
        let oq = old(q)@;
        assert forall|x: usize| final(q)@.contains(x) implies (oq.contains(x) && x != t) by {
            let w = choose|w: int| 0 <= w < final(q)@.len() && final(q)@[w] == x;
            if w < i {
                assert(oq[w] == x);
            } else {
                assert(oq[w + 1] == x);
            }
        }
        assert forall|x: usize| oq.contains(x) && x != t implies final(q)@.contains(x) by {
            let w = choose|w: int| 0 <= w < oq.len() && oq[w] == x;
            if w < i {
                assert(final(q)@[w] == x);
            } else {
                assert(w > i);
                assert(final(q)@[w - 1] == x);
            }
        }
        assert(!final(q)@.contains(t));
    }
    i
}

impl Kernel {
    /// Scheduler hook: record the new state of a thread and let the
    /// scheduler take note; blocking the current thread asks for a
    /// reschedule.
    pub(crate) fn set_thread_state(&mut self, t: usize, ts: ThreadState)
        requires
            t < old(self).tcbs.len(),
        ensures
            tcbs_same_except(*old(self), *final(self), t as int),
            final(self).tcbs@[t as int] == (Tcb {
                state: ThreadStateRecord { ts_type: ts, ..old(self).tcbs@[t as int].state },
                ..old(self).tcbs@[t as int]
            }),
            same_eps(*old(self), *final(self)),
            same_ntfns(*old(self), *final(self)),
            same_replies(*old(self), *final(self)),
            same_scs(*old(self), *final(self)),
            same_cur(*old(self), *final(self)),
            final(self).ready_queue@ == old(self).ready_queue@,
            final(self).release_queue@ == old(self).release_queue@,
            final(self).switch_candidate == old(self).switch_candidate,
            final(self).timeout_event == old(self).timeout_event,
            final(self).resched == (old(self).resched || (old(self).cur_thread == Some(t)
                && !runnable(ts))),
    {
        self.tcbs[t].state.ts_type = ts;
        let is_cur = match self.cur_thread {
            Some(c) => c == t,
            None => false,
        };
        let is_runnable = ts == ThreadState::Running || ts == ThreadState::Restart;
        if is_cur && !is_runnable {
            self.resched = true;
        }
    }

    /// Scheduler hook: record a thread as the candidate to switch to.
    pub(crate) fn possible_switch_to(&mut self, t: usize)
        ensures
            same_tcbs(*old(self), *final(self)),
            same_eps(*old(self), *final(self)),
            same_ntfns(*old(self), *final(self)),
            same_replies(*old(self), *final(self)),
            same_scs(*old(self), *final(self)),
            same_cur(*old(self), *final(self)),
            final(self).ready_queue@ == old(self).ready_queue@,
            final(self).release_queue@ == old(self).release_queue@,
            final(self).switch_candidate == Some(t),
            final(self).resched == old(self).resched,
            final(self).timeout_event == old(self).timeout_event,
    {
        self.switch_candidate = Some(t);
    }

    /// Scheduler hook: hand a thread to the scheduler for enqueueing.
    pub(crate) fn sched_enqueue(&mut self, t: usize)
        ensures
            same_tcbs(*old(self), *final(self)),
            same_eps(*old(self), *final(self)),
            same_ntfns(*old(self), *final(self)),
            same_replies(*old(self), *final(self)),
            same_scs(*old(self), *final(self)),
            same_cur(*old(self), *final(self)),
            final(self).ready_queue@ == old(self).ready_queue@.push(t),
            final(self).release_queue@ == old(self).release_queue@,
            final(self).switch_candidate == old(self).switch_candidate,
            final(self).resched == old(self).resched,
            final(self).timeout_event == old(self).timeout_event,
    {
        self.ready_queue.push(t);
    }

    /// Scheduler hook: ask for a full reschedule.
    pub(crate) fn reschedule_required(&mut self)
        ensures
            same_tcbs(*old(self), *final(self)),
            same_eps(*old(self), *final(self)),
            same_ntfns(*old(self), *final(self)),
            same_replies(*old(self), *final(self)),
            same_scs(*old(self), *final(self)),
            same_cur(*old(self), *final(self)),
            final(self).ready_queue@ == old(self).ready_queue@,
            final(self).release_queue@ == old(self).release_queue@,
            final(self).switch_candidate == old(self).switch_candidate,
            final(self).resched == true,
            final(self).timeout_event == old(self).timeout_event,
    {
        self.resched = true;
    }

    /// Refill hook: an unblock check rounds the refill up to now, making
    /// it ready.
    pub(crate) fn refill_unblock_check(&mut self, s: usize)
        requires
            s < old(self).scs.len(),
        ensures
            same_tcbs(*old(self), *final(self)),
            same_eps(*old(self), *final(self)),
            same_ntfns(*old(self), *final(self)),
            same_replies(*old(self), *final(self)),
            scs_same_except(*old(self), *final(self), s as int),
            final(self).scs@[s as int] == (SchedContext {
                refill_ready: true,
                ..old(self).scs@[s as int]
            }),
            same_cur(*old(self), *final(self)),
            final(self).ready_queue@ == old(self).ready_queue@,
            final(self).release_queue@ == old(self).release_queue@,
            final(self).switch_candidate == old(self).switch_candidate,
            final(self).resched == old(self).resched,
            final(self).timeout_event == old(self).timeout_event,
    {
        self.scs[s].refill_ready = true;
    }

    /// Donate a scheduling context to a thread without one: the previous
    /// holder, if any, loses it.
    pub(crate) fn sched_context_donate(&mut self, s: usize, dest: usize)
        requires
            s < old(self).scs.len(),
            dest < old(self).tcbs.len(),
            old(self).tcbs@[dest as int].sched_context is None,
            old(self).scs@[s as int].tcb matches Some(f) ==> f < old(self).tcbs.len() && f
                != dest,
        ensures
            final(self).tcbs@.len() == old(self).tcbs@.len(),
            (old(self).scs@[s as int].tcb matches Some(f) ==> tcbs_same_except2(
                *old(self),
                *final(self),
                f as int,
                dest as int,
            ) && final(self).tcbs@[f as int] == (Tcb {
                sched_context: None,
                ..old(self).tcbs@[f as int]
            })),
            (old(self).scs@[s as int].tcb is None ==> tcbs_same_except(
                *old(self),
                *final(self),
                dest as int,
            )),
            final(self).tcbs@[dest as int] == (Tcb {
                sched_context: Some(s),
                ..old(self).tcbs@[dest as int]
            }),
            same_eps(*old(self), *final(self)),
            same_ntfns(*old(self), *final(self)),
            same_replies(*old(self), *final(self)),
            scs_same_except(*old(self), *final(self), s as int),
            final(self).scs@[s as int] == (SchedContext {
                tcb: Some(dest),
                ..old(self).scs@[s as int]
            }),
            same_cur(*old(self), *final(self)),
            final(self).ready_queue@ == old(self).ready_queue@,
            final(self).release_queue@ == old(self).release_queue@,
            final(self).switch_candidate == old(self).switch_candidate,
            final(self).resched == old(self).resched,
            final(self).timeout_event == old(self).timeout_event,
    {
        let from = self.scs[s].tcb;
        match from {
            Some(f) => {
                self.tcbs[f].sched_context = None;
            },
            None => {},
        }
        self.scs[s].tcb = Some(dest);
        self.tcbs[dest].sched_context = Some(s);
    }

    /// Unlink a reply object from the thread it names; the thread is left
    /// inactive, as every caller that keeps it blocked overrides after.
    pub(crate) fn reply_unlink(&mut self, r: usize, t: usize)
        requires
            r < old(self).replies.len(),
            t < old(self).tcbs.len(),
        ensures
            tcbs_same_except(*old(self), *final(self), t as int),
            final(self).tcbs@[t as int] == (Tcb {
                state: ThreadStateRecord {
                    ts_type: ThreadState::Inactive,
                    reply_object: None,
                    ..old(self).tcbs@[t as int].state
                },
                ..old(self).tcbs@[t as int]
            }),
            same_eps(*old(self), *final(self)),
            same_ntfns(*old(self), *final(self)),
            replies_same_except(*old(self), *final(self), r as int),
            final(self).replies@[r as int] == (Reply {
                tcb: None,
                ..old(self).replies@[r as int]
            }),
            same_scs(*old(self), *final(self)),
            same_cur(*old(self), *final(self)),
            final(self).ready_queue@ == old(self).ready_queue@,
            final(self).release_queue@ == old(self).release_queue@,
            final(self).switch_candidate == old(self).switch_candidate,
            final(self).timeout_event == old(self).timeout_event,
            final(self).resched == (old(self).resched || old(self).cur_thread == Some(t)),
    {
        self.replies[r].tcb = None;
        self.tcbs[t].state.reply_object = None;
        self.set_thread_state(t, ThreadState::Inactive);
    }

    /// Drop a thread's reply object on cancellation: the links are
    /// cleared and the thread is left inactive; a scheduling context
    /// donated through the reply stays with its present holder.
    pub(crate) fn reply_remove_tcb(&mut self, t: usize)
        requires
            t < old(self).tcbs.len(),
            old(self).tcbs@[t as int].state.reply_object matches Some(r) ==> r < old(
                self,
            ).replies.len(),
        ensures
            tcbs_same_except(*old(self), *final(self), t as int),
            final(self).tcbs@[t as int] == (Tcb {
                state: ThreadStateRecord {
                    ts_type: ThreadState::Inactive,
                    reply_object: None,
                    ..old(self).tcbs@[t as int].state
                },
                ..old(self).tcbs@[t as int]
            }),
            same_eps(*old(self), *final(self)),
            same_ntfns(*old(self), *final(self)),
            same_scs(*old(self), *final(self)),
            (old(self).tcbs@[t as int].state.reply_object matches Some(r) ==> replies_same_except(
                *old(self),
                *final(self),
                r as int,
            ) && final(self).replies@[r as int] == (Reply { tcb: None, sched_context: None })),
            (old(self).tcbs@[t as int].state.reply_object is None ==> same_replies(
                *old(self),
                *final(self),
            )),
            same_cur(*old(self), *final(self)),
            final(self).ready_queue@ == old(self).ready_queue@,
            final(self).release_queue@ == old(self).release_queue@,
            final(self).switch_candidate == old(self).switch_candidate,
            final(self).timeout_event == old(self).timeout_event,
            final(self).resched == (old(self).resched || old(self).cur_thread == Some(t)),
    {
        match self.tcbs[t].state.reply_object {
            Some(r) => {
                self.replies[r].tcb = None;
                self.replies[r].sched_context = None;
                self.tcbs[t].state.reply_object = None;
            },
            None => {},
        }
        self.set_thread_state(t, ThreadState::Inactive);
    }

    /// Install a caller capability: the caller blocks awaiting the reply
    /// and the receiver's caller slot names it.
    pub(crate) fn setup_caller_cap(&mut self, receiver: usize, caller: usize, can_grant: bool)
        requires
            receiver < old(self).tcbs.len(),
            caller < old(self).tcbs.len(),
            receiver != caller,
            old(self).tcbs@[receiver as int].caller_slot is None,
            old(self).tcbs@[caller as int].caller_slot_in is None,
        ensures
            tcbs_same_except2(*old(self), *final(self), receiver as int, caller as int),
            final(self).tcbs@.len() == old(self).tcbs@.len(),
            final(self).tcbs@[caller as int] == (Tcb {
                state: ThreadStateRecord {
                    ts_type: ThreadState::BlockedOnReply,
                    ..old(self).tcbs@[caller as int].state
                },
                caller_slot_in: Some(receiver),
                ..old(self).tcbs@[caller as int]
            }),
            final(self).tcbs@[receiver as int] == (Tcb {
                caller_slot: Some(CallerCap { caller, can_grant }),
                ..old(self).tcbs@[receiver as int]
            }),
            same_eps(*old(self), *final(self)),
            same_ntfns(*old(self), *final(self)),
            same_replies(*old(self), *final(self)),
            same_scs(*old(self), *final(self)),
            same_cur(*old(self), *final(self)),
            final(self).ready_queue@ == old(self).ready_queue@,
            final(self).release_queue@ == old(self).release_queue@,
            final(self).switch_candidate == old(self).switch_candidate,
            final(self).timeout_event == old(self).timeout_event,
            final(self).resched == (old(self).resched || old(self).cur_thread == Some(caller)),
    {
        self.set_thread_state(caller, ThreadState::BlockedOnReply);
        self.tcbs[receiver].caller_slot = Some(CallerCap { caller, can_grant });
        self.tcbs[caller].caller_slot_in = Some(receiver);
    }

    /// Delete the caller capability in a thread's caller slot, clearing
    /// the back-link on the caller it names.
    pub(crate) fn delete_caller_cap(&mut self, holder: usize)
        requires
            holder < old(self).tcbs.len(),
            old(self).tcbs@[holder as int].caller_slot matches Some(c) ==> c.caller < old(
                self,
            ).tcbs.len(),
        ensures
            final(self).tcbs@.len() == old(self).tcbs@.len(),
            (old(self).tcbs@[holder as int].caller_slot matches Some(c) ==> tcbs_same_except2(
                *old(self),
                *final(self),
                holder as int,
                c.caller as int,
            ) && (c.caller != holder ==> final(self).tcbs@[holder as int] == (Tcb {
                caller_slot: None,
                ..old(self).tcbs@[holder as int]
            }) && final(self).tcbs@[c.caller as int] == (Tcb {
                caller_slot_in: None,
                ..old(self).tcbs@[c.caller as int]
            })) && (c.caller == holder ==> final(self).tcbs@[holder as int] == (Tcb {
                caller_slot: None,
                caller_slot_in: None,
                ..old(self).tcbs@[holder as int]
            }))),
            (old(self).tcbs@[holder as int].caller_slot is None ==> same_tcbs(
                *old(self),
                *final(self),
            )),
            final(self).tcbs@[holder as int].caller_slot is None,
            same_eps(*old(self), *final(self)),
            same_ntfns(*old(self), *final(self)),
            same_replies(*old(self), *final(self)),
            same_scs(*old(self), *final(self)),
            same_cur(*old(self), *final(self)),
            final(self).ready_queue@ == old(self).ready_queue@,
            final(self).release_queue@ == old(self).release_queue@,
            final(self).switch_candidate == old(self).switch_candidate,
            final(self).timeout_event == old(self).timeout_event,
            final(self).resched == old(self).resched,
    {
        match self.tcbs[holder].caller_slot {
            Some(c) => {
                self.tcbs[holder].caller_slot = None;
                self.tcbs[c.caller].caller_slot_in = None;
            },
            None => {},
        }
    }
}

} // verus!
