//! The notification object: an asynchronous, badge-accumulating signal
//! word with a queue of blocked waiters and an optionally bound thread.

use vstd::prelude::*;

use crate::kernel::{
    distinct_seq, eps_same_except, ntfns_same_except, queue_remove, replies_same_except, same_cur,
    same_eps, same_ntfns, same_replies, same_scs, same_sched, same_tcbs, scs_same_except,
    tcbs_same_except, tcbs_same_except2, Kernel,
};
use crate::types::{
    Notification, NtfnState, Tcb, ThreadState, ThreadStateRecord,
};

verus! {

broadcast use vstd::seq_lib::lemma_seq_contains_after_push;

impl Kernel {
    /// Get the state of the notification
    pub fn get_ntfn_state(&self, n: usize) -> (st: NtfnState)
        requires
            self.valid_ntfn(n as int),
        ensures
            st == self.notifications@[n as int].state,
    {
        self.notifications[n].state
    }

    /// Set the notification to active with the given badge as its message
    /// identifier.
    pub fn active(&mut self, n: usize, badge: u64)
        requires
            old(self).wf(),
            old(self).valid_ntfn(n as int),
            old(self).notifications@[n as int].state != NtfnState::Waiting,
        ensures
            final(self).wf(),
            same_tcbs(*old(self), *final(self)),
            same_eps(*old(self), *final(self)),
            ntfns_same_except(*old(self), *final(self), n as int),
            final(self).notifications@[n as int] == (Notification {
                state: NtfnState::Active,
                badge,
                ..old(self).notifications@[n as int]
            }),
            same_replies(*old(self), *final(self)),
            same_scs(*old(self), *final(self)),
            same_sched(*old(self), *final(self)),
    {
        self.notifications[n].state = NtfnState::Active;
        self.notifications[n].badge = badge;
        proof {
            assert forall|t: int| 0 <= t < self.tcbs@.len() implies self.tcb_ok(t) by {
                assert(old(self).tcb_ok(t));
            }
            assert forall|e: int| 0 <= e < self.endpoints@.len() implies self.ep_ok(e) by {
                assert(old(self).ep_ok(e));
            }
            assert forall|m: int| 0 <= m < self.notifications@.len() implies self.ntfn_ok(m) by {
                assert(old(self).ntfn_ok(m));
            }
            assert forall|r: int| 0 <= r < self.replies@.len() implies self.reply_ok(r) by {
                assert(old(self).reply_ok(r));
            }
            assert forall|s: int| 0 <= s < self.scs@.len() implies self.sc_ok(s) by {
                assert(old(self).sc_ok(s));
            }
        }
    }

    /// Remove a waiter from the notification's queue, leaving the
    /// notification idle when the queue drains and the thread inactive.
    pub fn cancel_signal(&mut self, n: usize, t: usize)
        requires
            old(self).wf(),
            old(self).valid_ntfn(n as int),
            old(self).valid_tcb(t as int),
            old(self).tcbs@[t as int].state.ts_type == ThreadState::BlockedOnNotification,
            old(self).tcbs@[t as int].state.blocking_object == Some(n),
        ensures
            final(self).wf(),
            tcbs_same_except(*old(self), *final(self), t as int),
            final(self).tcbs@[t as int] == (Tcb {
                state: ThreadStateRecord {
                    ts_type: ThreadState::Inactive,
                    ..old(self).tcbs@[t as int].state
                },
                ..old(self).tcbs@[t as int]
            }),
            ntfns_same_except(*old(self), *final(self), n as int),
            final(self).notifications@[n as int].queue@ == old(self).ntfn_queue(n as int).remove(
                old(self).ntfn_queue(n as int).index_of(t),
            ),
            !final(self).ntfn_queue(n as int).contains(t),
            forall|x: usize| #[trigger]
                final(self).ntfn_queue(n as int).contains(x) <==> (old(self).ntfn_queue(
                    n as int,
                ).contains(x) && x != t),
            final(self).notifications@[n as int].state == (if old(self).ntfn_queue(n as int).len()
                == 1 {
                NtfnState::Idle
            } else {
                old(self).notifications@[n as int].state
            }),
            final(self).notifications@[n as int].badge == old(
                self,
            ).notifications@[n as int].badge,
            final(self).notifications@[n as int].bound_tcb == old(
                self,
            ).notifications@[n as int].bound_tcb,
            final(self).notifications@[n as int].sched_context == old(
                self,
            ).notifications@[n as int].sched_context,
            same_eps(*old(self), *final(self)),
            same_replies(*old(self), *final(self)),
            same_scs(*old(self), *final(self)),
            same_cur(*old(self), *final(self)),
            final(self).ready_queue@ == old(self).ready_queue@,
            final(self).release_queue@ == old(self).release_queue@,
            final(self).switch_candidate == old(self).switch_candidate,
            final(self).timeout_event == old(self).timeout_event,
            final(self).resched == (old(self).resched || old(self).cur_thread == Some(t)),
    {
        proof {
            assert(old(self).tcb_ok(t as int));
            assert(old(self).ntfn_ok(n as int));
        }
        let ghost oldq = self.notifications@[n as int].queue@;
        let ix = queue_remove(&mut self.notifications[n].queue, t);
        if self.notifications[n].queue.len() == 0 {
            self.notifications[n].state = NtfnState::Idle;
        }
        self.set_thread_state(t, ThreadState::Inactive);
        proof {
            let a = *old(self);
            let b = *self;
            a.lemma_len_bounds();
            assert(oldq.remove(ix as int).len() == oldq.len() - 1);
            assert(oldq.index_of(t) == ix as int) by {
                assert(oldq[ix as int] == t);
                let j = oldq.index_of(t);
                assert(oldq[j] == t);
            }
            assert forall|tt: int| 0 <= tt < b.tcbs@.len() implies b.tcb_ok(tt) by {
                assert(a.tcb_ok(tt));
                if tt != t {
                    let tcb = a.tcbs@[tt];
                    if tcb.state.ts_type == ThreadState::BlockedOnNotification {
                        let m = tcb.state.blocking_object->0;
                        if m == n {
                            assert(a.ntfn_queue(n as int).contains(tt as usize));
                            assert(tt as usize != t);
                            assert(b.ntfn_queue(n as int).contains(tt as usize));
                        }
                    }
                }
            }
            assert forall|e: int| 0 <= e < b.endpoints@.len() implies b.ep_ok(e) by {
                assert(a.ep_ok(e));
                assert forall|i: int| 0 <= i < a.ep_queue(e).len() implies a.ep_queue(e)[i]
                    != t as usize by {
                    assert(a.tcbs@[a.ep_queue(e)[i] as int].state.ts_type
                        != ThreadState::BlockedOnNotification);
                }
            }
            assert forall|m: int| 0 <= m < b.notifications@.len() implies b.ntfn_ok(m) by {
                assert(a.ntfn_ok(m));
                if m != n {
                    assert forall|i: int| 0 <= i < a.ntfn_queue(m).len() implies a.ntfn_queue(
                        m,
                    )[i] != t as usize by {
                        if a.ntfn_queue(m)[i] == t as usize {
                            assert(a.tcbs@[t as int].state.blocking_object == Some(m as usize));
                        }
                    }
                } else {
                    assert forall|i: int| 0 <= i < b.ntfn_queue(n as int).len() implies {
                        let tcb = b.tcbs@[#[trigger] b.ntfn_queue(n as int)[i] as int];
                        tcb.state.ts_type == ThreadState::BlockedOnNotification
                            && tcb.state.blocking_object == Some(n)
                    } by {
                        assert(b.ntfn_queue(n as int).contains(b.ntfn_queue(n as int)[i]));
                        assert(b.ntfn_queue(n as int)[i] != t as usize);
                        assert(oldq.contains(b.ntfn_queue(n as int)[i]));
                    }
                }
            }
            assert forall|r: int| 0 <= r < b.replies@.len() implies b.reply_ok(r) by {
                assert(a.reply_ok(r));
            }
            assert forall|s: int| 0 <= s < b.scs@.len() implies b.sc_ok(s) by {
                assert(a.sc_ok(s));
            }
        }
    }

    /// Bind a thread to the notification; the thread points back, as the
    /// surrounding kernel keeps the two pointers in step.
    pub fn bind_tcb(&mut self, n: usize, t: usize)
        requires
            old(self).wf(),
            old(self).valid_ntfn(n as int),
            old(self).valid_tcb(t as int),
            old(self).notifications@[n as int].bound_tcb is None,
            old(self).tcbs@[t as int].bound_notification is None,
        ensures
            final(self).wf(),
            tcbs_same_except(*old(self), *final(self), t as int),
            final(self).tcbs@[t as int] == (Tcb {
                bound_notification: Some(n),
                ..old(self).tcbs@[t as int]
            }),
            ntfns_same_except(*old(self), *final(self), n as int),
            final(self).notifications@[n as int] == (Notification {
                bound_tcb: Some(t),
                ..old(self).notifications@[n as int]
            }),
            same_eps(*old(self), *final(self)),
            same_replies(*old(self), *final(self)),
            same_scs(*old(self), *final(self)),
            same_sched(*old(self), *final(self)),
    {
        self.notifications[n].bound_tcb = Some(t);
        self.tcbs[t].bound_notification = Some(n);
        proof {
            let a = *old(self);
            let b = *self;
            a.lemma_len_bounds();
            assert forall|tt: int| 0 <= tt < b.tcbs@.len() implies b.tcb_ok(tt) by {
                assert(a.tcb_ok(tt));
            }
            assert forall|e: int| 0 <= e < b.endpoints@.len() implies b.ep_ok(e) by {
                assert(a.ep_ok(e));
            }
            assert forall|m: int| 0 <= m < b.notifications@.len() implies b.ntfn_ok(m) by {
                assert(a.ntfn_ok(m));
            }
            assert forall|r: int| 0 <= r < b.replies@.len() implies b.reply_ok(r) by {
                assert(a.reply_ok(r));
            }
            assert forall|s: int| 0 <= s < b.scs@.len() implies b.sc_ok(s) by {
                assert(a.sc_ok(s));
            }
        }
    }

    /// Clear the notification's bound thread, and the thread's reciprocal
    /// pointer with it.
    pub fn unbind_tcb(&mut self, n: usize)
        requires
            old(self).wf(),
            old(self).valid_ntfn(n as int),
        ensures
            final(self).wf(),
            final(self).notifications@[n as int] == (Notification {
                bound_tcb: None,
                ..old(self).notifications@[n as int]
            }),
            ntfns_same_except(*old(self), *final(self), n as int),
            (old(self).notifications@[n as int].bound_tcb matches Some(t) ==> tcbs_same_except(
                *old(self),
                *final(self),
                t as int,
            ) && final(self).tcbs@[t as int] == (Tcb {
                bound_notification: None,
                ..old(self).tcbs@[t as int]
            })),
            (old(self).notifications@[n as int].bound_tcb is None ==> same_tcbs(
                *old(self),
                *final(self),
            )),
            same_eps(*old(self), *final(self)),
            same_replies(*old(self), *final(self)),
            same_scs(*old(self), *final(self)),
            same_sched(*old(self), *final(self)),
    {
        proof {
            assert(old(self).ntfn_ok(n as int));
        }
        match self.notifications[n].bound_tcb {
            Some(t) => {
                self.tcbs[t].bound_notification = None;
            },
            None => {},
        }
        self.notifications[n].bound_tcb = None;
        proof {
            let a = *old(self);
            let b = *self;
            a.lemma_len_bounds();
            assert forall|tt: int| 0 <= tt < b.tcbs@.len() implies b.tcb_ok(tt) by {
                assert(a.tcb_ok(tt));
            }
            assert forall|e: int| 0 <= e < b.endpoints@.len() implies b.ep_ok(e) by {
                assert(a.ep_ok(e));
            }
            assert forall|m: int| 0 <= m < b.notifications@.len() implies b.ntfn_ok(m) by {
                assert(a.ntfn_ok(m));
                assert(b.ntfn_queue(m) == a.ntfn_queue(m));
            }
            assert forall|r: int| 0 <= r < b.replies@.len() implies b.reply_ok(r) by {
                assert(a.reply_ok(r));
            }
            assert forall|s: int| 0 <= s < b.scs@.len() implies b.sc_ok(s) by {
                assert(a.sc_ok(s));
            }
        }
    }

    /// Safely unbind the thread from the notification: both the
    /// notification's pointer and the thread's reciprocal pointer are
    /// cleared.
    pub fn safe_unbind_tcb(&mut self, n: usize)
        requires
            old(self).wf(),
            old(self).valid_ntfn(n as int),
        ensures
            final(self).wf(),
            final(self).notifications@[n as int] == (Notification {
                bound_tcb: None,
                ..old(self).notifications@[n as int]
            }),
            ntfns_same_except(*old(self), *final(self), n as int),
            (old(self).notifications@[n as int].bound_tcb matches Some(t) ==> tcbs_same_except(
                *old(self),
                *final(self),
                t as int,
            ) && final(self).tcbs@[t as int] == (Tcb {
                bound_notification: None,
                ..old(self).tcbs@[t as int]
            })),
            (old(self).notifications@[n as int].bound_tcb is None ==> same_tcbs(
                *old(self),
                *final(self),
            )),
            same_eps(*old(self), *final(self)),
            same_replies(*old(self), *final(self)),
            same_scs(*old(self), *final(self)),
            same_sched(*old(self), *final(self)),
    {
        self.unbind_tcb(n);
    }

    /// Receive a signal: an active notification hands its badge over and
    /// goes idle; otherwise a blocking receiver queues up and a
    /// non-blocking one gets badge zero.
    #[verifier::rlimit(60)]
    pub fn receive_signal(&mut self, n: usize, recv_thread: usize, is_blocking: bool)
        requires
            old(self).wf(),
            old(self).valid_ntfn(n as int),
            old(self).valid_tcb(recv_thread as int),
            old(self).tcbs@[recv_thread as int].state.ts_type == ThreadState::Running,
        ensures
            final(self).wf(),
            same_eps(*old(self), *final(self)),
            same_replies(*old(self), *final(self)),
            same_scs(*old(self), *final(self)),
            same_cur(*old(self), *final(self)),
            final(self).ready_queue@ == old(self).ready_queue@,
            final(self).release_queue@ == old(self).release_queue@,
            final(self).switch_candidate == old(self).switch_candidate,
            final(self).timeout_event == old(self).timeout_event,
            ({
                let nf = old(self).notifications@[n as int];
                let tcb = old(self).tcbs@[recv_thread as int];
                if nf.state == NtfnState::Active {
                    &&& tcbs_same_except(*old(self), *final(self), recv_thread as int)
                    &&& final(self).tcbs@[recv_thread as int] == (Tcb {
                        arch: crate::types::ArchTcb { reg_badge: nf.badge, ..tcb.arch },
                        ..tcb
                    })
                    &&& ntfns_same_except(*old(self), *final(self), n as int)
                    &&& final(self).notifications@[n as int] == (Notification {
                        state: NtfnState::Idle,
                        ..nf
                    })
                    &&& final(self).resched == old(self).resched
                } else if is_blocking {
                    &&& tcbs_same_except(*old(self), *final(self), recv_thread as int)
                    &&& final(self).tcbs@[recv_thread as int] == (Tcb {
                        state: ThreadStateRecord {
                            ts_type: ThreadState::BlockedOnNotification,
                            blocking_object: Some(n),
                            ..tcb.state
                        },
                        ..tcb
                    })
                    &&& ntfns_same_except(*old(self), *final(self), n as int)
                    &&& final(self).notifications@[n as int].state == NtfnState::Waiting
                    &&& final(self).notifications@[n as int].queue@ == nf.queue@.push(recv_thread)
                    &&& final(self).notifications@[n as int].badge == nf.badge
                    &&& final(self).notifications@[n as int].bound_tcb == nf.bound_tcb
                    &&& final(self).notifications@[n as int].sched_context == nf.sched_context
                    &&& final(self).resched == (old(self).resched || old(self).cur_thread
                        == Some(recv_thread))
                } else {
                    &&& tcbs_same_except(*old(self), *final(self), recv_thread as int)
                    &&& final(self).tcbs@[recv_thread as int] == (Tcb {
                        arch: crate::types::ArchTcb { reg_badge: 0, ..tcb.arch },
                        ..tcb
                    })
                    &&& same_ntfns(*old(self), *final(self))
                    &&& final(self).resched == old(self).resched
                }
            }),
    {
        proof {
            assert(old(self).ntfn_ok(n as int));
            assert(old(self).tcb_ok(recv_thread as int));
        }
        let st = self.get_ntfn_state(n);
        match st {
            NtfnState::Idle | NtfnState::Waiting => {
                if is_blocking {
                    self.tcbs[recv_thread].state.blocking_object = Some(n);
                    self.set_thread_state(recv_thread, ThreadState::BlockedOnNotification);
                    self.notifications[n].queue.push(recv_thread);
                    self.notifications[n].state = NtfnState::Waiting;
                } else {
                    self.tcbs[recv_thread].arch.reg_badge = 0;
                }
            },
            NtfnState::Active => {
                let badge = self.notifications[n].badge;
                self.tcbs[recv_thread].arch.reg_badge = badge;
                self.notifications[n].state = NtfnState::Idle;
            },
        }
        proof {
            let a = *old(self);
            let b = *self;
            a.lemma_len_bounds();
            let t = recv_thread;
            assert forall|tt: int| 0 <= tt < b.tcbs@.len() implies b.tcb_ok(tt) by {
                assert(a.tcb_ok(tt));
            }
            assert forall|e: int| 0 <= e < b.endpoints@.len() implies b.ep_ok(e) by {
                assert(a.ep_ok(e));
                assert forall|i: int| 0 <= i < a.ep_queue(e).len() implies a.ep_queue(e)[i]
                    != t by {
                    assert(a.tcbs@[a.ep_queue(e)[i] as int].state.ts_type
                        != ThreadState::Running);
                }
            }
            assert forall|m: int| 0 <= m < b.notifications@.len() implies b.ntfn_ok(m) by {
                assert(a.ntfn_ok(m));
                assert forall|i: int| 0 <= i < a.ntfn_queue(m).len() implies a.ntfn_queue(m)[i]
                    != t by {
                    assert(a.tcbs@[a.ntfn_queue(m)[i] as int].state.ts_type
                        != ThreadState::Running);
                }
            }
            assert forall|r: int| 0 <= r < b.replies@.len() implies b.reply_ok(r) by {
                assert(a.reply_ok(r));
            }
            assert forall|s: int| 0 <= s < b.scs@.len() implies b.sc_ok(s) by {
                assert(a.sc_ok(s));
            }
        }
    }

    /// Send a signal: an idle notification delivers straight to a bound
    /// thread blocked receiving, or goes active; a waiting notification
    /// wakes the head of its queue; an active one accumulates the badge
    /// by bitwise or.
    pub fn send_signal(&mut self, n: usize, badge: u64)
        requires
            old(self).wf(),
            old(self).valid_ntfn(n as int),
        ensures
            final(self).wf(),
            same_scs(*old(self), *final(self)),
            same_cur(*old(self), *final(self)),
            final(self).ready_queue@ == old(self).ready_queue@,
            final(self).release_queue@ == old(self).release_queue@,
            final(self).timeout_event == old(self).timeout_event,
            ({
                let nf = old(self).notifications@[n as int];
                if nf.state == NtfnState::Idle {
                    let deliver = nf.bound_tcb matches Some(t) && old(
                        self,
                    ).tcbs@[t as int].state.ts_type == ThreadState::BlockedOnReceive;
                    if deliver {
                        let t = nf.bound_tcb->0;
                        let e = old(self).tcbs@[t as int].state.blocking_object->0;
                        &&& tcbs_same_except(*old(self), *final(self), t as int)
                        &&& final(self).tcbs@[t as int] == (Tcb {
                            state: ThreadStateRecord {
                                ts_type: ThreadState::Running,
                                reply_object: None,
                                ..old(self).tcbs@[t as int].state
                            },
                            arch: crate::types::ArchTcb {
                                reg_badge: badge,
                                ..old(self).tcbs@[t as int].arch
                            },
                            ..old(self).tcbs@[t as int]
                        })
                        &&& eps_same_except(*old(self), *final(self), e as int)
                        &&& final(self).endpoints@[e as int].queue@ == old(self).ep_queue(
                            e as int,
                        ).remove(old(self).ep_queue(e as int).index_of(t))
                        &&& final(self).endpoints@[e as int].state == (if old(self).ep_queue(
                            e as int,
                        ).len() == 1 {
                            crate::types::EPState::Idle
                        } else {
                            old(self).endpoints@[e as int].state
                        })
                        &&& same_ntfns(*old(self), *final(self))
                        &&& (old(self).tcbs@[t as int].state.reply_object matches Some(r)
                            ==> replies_same_except(*old(self), *final(self), r as int)
                            && final(self).replies@[r as int] == (crate::types::Reply {
                            tcb: None,
                            ..old(self).replies@[r as int]
                        }))
                        &&& (old(self).tcbs@[t as int].state.reply_object is None ==> same_replies(
                            *old(self),
                            *final(self),
                        ))
                        &&& final(self).switch_candidate == Some(t)
                        &&& final(self).resched == (old(self).resched || old(self).cur_thread
                            == Some(t))
                    } else {
                        &&& same_replies(*old(self), *final(self))
                        &&& same_tcbs(*old(self), *final(self))
                        &&& same_eps(*old(self), *final(self))
                        &&& ntfns_same_except(*old(self), *final(self), n as int)
                        &&& final(self).notifications@[n as int] == (Notification {
                            state: NtfnState::Active,
                            badge,
                            ..nf
                        })
                        &&& final(self).switch_candidate == old(self).switch_candidate
                        &&& final(self).resched == old(self).resched
                    }
                } else if nf.state == NtfnState::Waiting {
                    let dest = nf.queue@[0];
                    &&& same_replies(*old(self), *final(self))
                    &&& tcbs_same_except(*old(self), *final(self), dest as int)
                    &&& final(self).tcbs@[dest as int] == (Tcb {
                        state: ThreadStateRecord {
                            ts_type: ThreadState::Running,
                            ..old(self).tcbs@[dest as int].state
                        },
                        arch: crate::types::ArchTcb {
                            reg_badge: badge,
                            ..old(self).tcbs@[dest as int].arch
                        },
                        ..old(self).tcbs@[dest as int]
                    })
                    &&& same_eps(*old(self), *final(self))
                    &&& ntfns_same_except(*old(self), *final(self), n as int)
                    &&& final(self).notifications@[n as int].queue@ == nf.queue@.remove(0)
                    &&& final(self).notifications@[n as int].state == (if nf.queue@.len() == 1 {
                        NtfnState::Idle
                    } else {
                        NtfnState::Waiting
                    })
                    &&& final(self).notifications@[n as int].badge == nf.badge
                    &&& final(self).notifications@[n as int].bound_tcb == nf.bound_tcb
                    &&& final(self).notifications@[n as int].sched_context == nf.sched_context
                    &&& final(self).switch_candidate == Some(dest)
                    &&& final(self).resched == old(self).resched
                } else {
                    &&& same_replies(*old(self), *final(self))
                    &&& same_tcbs(*old(self), *final(self))
                    &&& same_eps(*old(self), *final(self))
                    &&& ntfns_same_except(*old(self), *final(self), n as int)
                    &&& final(self).notifications@[n as int] == (Notification {
                        badge: (nf.badge | badge),
                        ..nf
                    })
                    &&& final(self).switch_candidate == old(self).switch_candidate
                    &&& final(self).resched == old(self).resched
                }
            }),
    {
        proof {
            assert(old(self).ntfn_ok(n as int));
        }
        let st = self.get_ntfn_state(n);
        match st {
            NtfnState::Idle => {
                let bound = self.notifications[n].bound_tcb;
                let deliver = match bound {
                    Some(t) => {
                        proof {
                            assert(old(self).tcb_ok(t as int));
                        }
                        self.tcbs[t].state.ts_type == ThreadState::BlockedOnReceive
                    },
                    None => false,
                };
                if deliver {
                    let t = match bound {
                        Some(t) => t,
                        None => 0,
                    };
                    self.cancel_ipc(t);
                    let ghost k1 = *self;
                    self.set_thread_state(t, ThreadState::Running);
                    self.tcbs[t].arch.reg_badge = badge;
                    self.possible_switch_to(t);
                    proof {
                        crate::kernel::lemma_wf_after_unqueued_update(k1, *self, t as int);
                    }
                } else {
                    self.active(n, badge);
                }
            },
            NtfnState::Waiting => {
                proof {
                    assert(old(self).ntfn_queue(n as int).contains(old(self).ntfn_queue(
                        n as int,
                    )[0]));
                }
                let dest = self.notifications[n].queue[0];
                self.notifications[n].queue.remove(0);
                if self.notifications[n].queue.len() == 0 {
                    self.notifications[n].state = NtfnState::Idle;
                }
                self.set_thread_state(dest, ThreadState::Running);
                self.tcbs[dest].arch.reg_badge = badge;
                self.possible_switch_to(dest);
                proof {
                    crate::kernel::lemma_wf_after_ntfn_cancel(
                        *old(self),
                        *self,
                        n as int,
                        dest as int,
                        0,
                    );
                }
            },
            NtfnState::Active => {
                let old_badge = self.notifications[n].badge;
                self.notifications[n].badge = old_badge | badge;
                proof {
                    let a = *old(self);
                    let b = *self;
                    assert forall|tt: int| 0 <= tt < b.tcbs@.len() implies b.tcb_ok(tt) by {
                        assert(a.tcb_ok(tt));
                    }
                    assert forall|e: int| 0 <= e < b.endpoints@.len() implies b.ep_ok(e) by {
                        assert(a.ep_ok(e));
                    }
                    assert forall|m: int| 0 <= m < b.notifications@.len() implies b.ntfn_ok(
                        m,
                    ) by {
                        assert(a.ntfn_ok(m));
                    }
                    assert forall|r: int| 0 <= r < b.replies@.len() implies b.reply_ok(r) by {
                        assert(a.reply_ok(r));
                    }
                    assert forall|s: int| 0 <= s < b.scs@.len() implies b.sc_ok(s) by {
                        assert(a.sc_ok(s));
                    }
                }
            },
        }
    }

    /// Cancel every waiter: the notification goes idle first, then each
    /// previously queued thread is restarted and handed to the scheduler,
    /// and a reschedule is requested.
    #[verifier::rlimit(80)]
    pub fn cacncel_all_signal(&mut self, n: usize)
        requires
            old(self).wf(),
            old(self).valid_ntfn(n as int),
        ensures
            final(self).wf(),
            same_eps(*old(self), *final(self)),
            same_replies(*old(self), *final(self)),
            same_scs(*old(self), *final(self)),
            same_cur(*old(self), *final(self)),
            final(self).release_queue@ == old(self).release_queue@,
            final(self).switch_candidate == old(self).switch_candidate,
            final(self).timeout_event == old(self).timeout_event,
            ({
                let nf = old(self).notifications@[n as int];
                let oldq = nf.queue@;
                if nf.state == NtfnState::Waiting {
                    &&& ntfns_same_except(*old(self), *final(self), n as int)
                    &&& final(self).notifications@[n as int] == (Notification {
                        state: NtfnState::Idle,
                        queue: final(self).notifications@[n as int].queue,
                        ..nf
                    })
                    &&& final(self).notifications@[n as int].queue@ == Seq::<usize>::empty()
                    &&& final(self).tcbs@.len() == old(self).tcbs@.len()
                    &&& (forall|j: int| 0 <= j < oldq.len() ==> final(self).tcbs@[#[trigger] oldq[j] as int]
                        == (Tcb {
                        state: ThreadStateRecord {
                            ts_type: ThreadState::Restart,
                            ..old(self).tcbs@[oldq[j] as int].state
                        },
                        ..old(self).tcbs@[oldq[j] as int]
                    }))
                    &&& (forall|k: int| 0 <= k < old(self).tcbs@.len() && !oldq.contains(k as usize)
                        ==> final(self).tcbs@[k] == old(self).tcbs@[k])
                    &&& final(self).ready_queue@ == old(self).ready_queue@ + oldq
                    &&& final(self).resched == true
                } else {
                    &&& same_tcbs(*old(self), *final(self))
                    &&& same_ntfns(*old(self), *final(self))
                    &&& final(self).ready_queue@ == old(self).ready_queue@
                    &&& final(self).resched == old(self).resched
                }
            }),
    {
        proof {
            assert(old(self).ntfn_ok(n as int));
        }
        let st = self.get_ntfn_state(n);
        if st == NtfnState::Waiting {
            let q = self.notifications[n].queue.clone();
            proof {
                assert(q@ =~= old(self).notifications@[n as int].queue@);
            }
            self.notifications[n].queue.clear();
            self.notifications[n].state = NtfnState::Idle;
            let ghost a = *old(self);
            let ghost oldq = a.notifications@[n as int].queue@;
            let mut i: usize = 0;
            while i < q.len()
                invariant
                    old(self).wf(),
                    q@ == oldq,
                    i <= oldq.len(),
                    a == *old(self),
                    oldq == a.notifications@[n as int].queue@,
                    a.valid_ntfn(n as int),
                    a.notifications@[n as int].state == NtfnState::Waiting,
                    a.ntfn_ok(n as int),
                    self.tcbs@.len() == a.tcbs@.len(),
                    self.endpoints@ == a.endpoints@,
                    self.replies@ == a.replies@,
                    self.scs@ == a.scs@,
                    ntfns_same_except(a, *self, n as int),
                    self.notifications@[n as int] == (Notification {
                        state: NtfnState::Idle,
                        queue: self.notifications@[n as int].queue,
                        ..a.notifications@[n as int]
                    }),
                    self.notifications@[n as int].queue@ == Seq::<usize>::empty(),
                    forall|j: int| 0 <= j < i ==> self.tcbs@[#[trigger] oldq[j] as int] == (Tcb {
                        state: ThreadStateRecord {
                            ts_type: ThreadState::Restart,
                            ..a.tcbs@[oldq[j] as int].state
                        },
                        ..a.tcbs@[oldq[j] as int]
                    }),
                    forall|j: int| i <= j < oldq.len() ==> self.tcbs@[#[trigger] oldq[j] as int]
                        == a.tcbs@[oldq[j] as int],
                    forall|k: int| 0 <= k < a.tcbs@.len() && !oldq.contains(k as usize)
                        ==> self.tcbs@[k] == a.tcbs@[k],
                    self.ready_queue@ == a.ready_queue@ + oldq.subrange(0, i as int),
                    self.release_queue@ == a.release_queue@,
                    self.switch_candidate == a.switch_candidate,
                    self.timeout_event == a.timeout_event,
                    self.cur_thread == a.cur_thread,
                    self.cur_sc == a.cur_sc,
                decreases q@.len() - i,
            {
                let t = q[i];
                proof {
                    assert(oldq.contains(oldq[i as int]));
                    assert(a.valid_tcb(t as int));
                    a.lemma_len_bounds();
                    assert forall|j: int| 0 <= j < oldq.len() && j != i implies oldq[j]
                        != oldq[i as int] by {}
                }
                self.set_thread_state(t, ThreadState::Restart);
                self.sched_enqueue(t);
                i = i + 1;
                proof {
                    assert(self.ready_queue@ =~= a.ready_queue@ + oldq.subrange(0, i as int));
                }
            }
            self.reschedule_required();
            proof {
                let b = *self;
                a.lemma_len_bounds();
                assert(oldq.subrange(0, oldq.len() as int) == oldq);
                assert forall|tt: int| 0 <= tt < b.tcbs@.len() implies b.tcb_ok(tt) by {
                    assert(a.tcb_ok(tt));
                    if oldq.contains(tt as usize) {
                        let j = choose|j: int| 0 <= j < oldq.len() && oldq[j] == tt as usize;
                        assert(b.tcbs@[tt] == (Tcb {
                            state: ThreadStateRecord {
                                ts_type: ThreadState::Restart,
                                ..a.tcbs@[tt].state
                            },
                            ..a.tcbs@[tt]
                        }));
                        assert(a.tcbs@[tt].state.ts_type == ThreadState::BlockedOnNotification);
                        assert(a.tcbs@[tt].state.reply_object is None);
                        assert(a.tcbs@[tt].caller_slot_in is None);
                    }
                }
                assert forall|e: int| 0 <= e < b.endpoints@.len() implies b.ep_ok(e) by {
                    assert(a.ep_ok(e));
                    assert forall|i2: int| 0 <= i2 < a.ep_queue(e).len() implies !oldq.contains(
                        a.ep_queue(e)[i2],
                    ) by {
                        if oldq.contains(a.ep_queue(e)[i2]) {
                            let j = choose|j: int|
                                0 <= j < oldq.len() && oldq[j] == a.ep_queue(e)[i2];
                            assert(a.tcbs@[oldq[j] as int].state.ts_type
                                == ThreadState::BlockedOnNotification);
                        }
                    }
                }
                assert forall|m: int| 0 <= m < b.notifications@.len() implies b.ntfn_ok(m) by {
                    assert(a.ntfn_ok(m));
                    if m != n {
                        assert forall|i2: int| 0 <= i2 < a.ntfn_queue(m).len()
                            implies !oldq.contains(a.ntfn_queue(m)[i2]) by {
                            if oldq.contains(a.ntfn_queue(m)[i2]) {
                                let j = choose|j: int|
                                    0 <= j < oldq.len() && oldq[j] == a.ntfn_queue(m)[i2];
                                assert(a.tcbs@[oldq[j] as int].state.blocking_object == Some(
                                    n,
                                ));
                            }
                        }
                        assert(b.notifications@[m] == a.notifications@[m]);
                        match b.notifications@[m].bound_tcb {
                            Some(t) => {
                                if oldq.contains(t) {
                                    assert(b.tcbs@[t as int].bound_notification
                                        == a.tcbs@[t as int].bound_notification);
                                }
                                assert(a.tcbs@[t as int].bound_notification == Some(m as usize));
                                assert(b.tcbs@[t as int].bound_notification == Some(m as usize));
                            },
                            None => {},
                        }
                    }
                }
                assert forall|r: int| 0 <= r < b.replies@.len() implies b.reply_ok(r) by {
                    assert(a.reply_ok(r));
                    match b.replies@[r].tcb {
                        Some(t) => {
                            assert(a.tcbs@[t as int].state.reply_object == Some(r as usize));
                            assert(a.tcb_ok(t as int));
                            if oldq.contains(t) {
                                assert(a.tcbs@[t as int].state.ts_type
                                    == ThreadState::BlockedOnNotification);
                            }
                            assert(b.tcbs@[t as int].state.reply_object == Some(r as usize));
                        },
                        None => {},
                    }
                }
                assert forall|s: int| 0 <= s < b.scs@.len() implies b.sc_ok(s) by {
                    assert(a.sc_ok(s));
                    match b.scs@[s].tcb {
                        Some(t) => {
                            assert(a.tcbs@[t as int].sched_context == Some(s as usize));
                            assert(b.tcbs@[t as int].sched_context == Some(s as usize));
                        },
                        None => {},
                    }
                }
            }
        }
    }
}

} // verus!
