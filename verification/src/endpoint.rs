//! The endpoint object: a synchronous rendezvous point whose queue holds
//! blocked senders or blocked receivers, never a mixture.

use vstd::prelude::*;

use crate::kernel::{
    eps_same_except, ntfns_same_except, queue_remove, replies_same_except, same_cur, same_eps,
    same_ntfns, same_replies, same_scs, same_tcbs, tcbs_same_except, tcbs_same_except2, Kernel,
};
use crate::types::{
    CallerCap, EPState, Endpoint, Fault, Tcb, ThreadState, ThreadStateRecord,
};

verus! {

impl Kernel {
    /// Get the state of the endpoint
    pub fn get_ep_state(&self, e: usize) -> (st: EPState)
        requires
            self.valid_ep(e as int),
        ensures
            st == self.endpoints@[e as int].state,
    {
        self.endpoints[e].state
    }

    /// Remove a blocked thread from this endpoint's queue: the endpoint
    /// goes idle when the queue drains, a reply object still linked to
    /// the thread is unlinked, and the thread is left inactive.
    pub fn ep_cancel_ipc(&mut self, e: usize, t: usize)
        requires
            old(self).wf(),
            old(self).valid_ep(e as int),
            old(self).valid_tcb(t as int),
            old(self).tcbs@[t as int].state.ts_type == ThreadState::BlockedOnSend || old(
                self,
            ).tcbs@[t as int].state.ts_type == ThreadState::BlockedOnReceive,
            old(self).tcbs@[t as int].state.blocking_object == Some(e),
        ensures
            final(self).wf(),
            tcbs_same_except(*old(self), *final(self), t as int),
            final(self).tcbs@[t as int] == (Tcb {
                state: ThreadStateRecord {
                    ts_type: ThreadState::Inactive,
                    reply_object: None,
                    ..old(self).tcbs@[t as int].state
                },
                ..old(self).tcbs@[t as int]
            }),
            eps_same_except(*old(self), *final(self), e as int),
            final(self).endpoints@[e as int].queue@ == old(self).ep_queue(e as int).remove(
                old(self).ep_queue(e as int).index_of(t),
            ),
            !final(self).ep_queue(e as int).contains(t),
            forall|x: usize| #[trigger]
                final(self).ep_queue(e as int).contains(x) <==> (old(self).ep_queue(
                    e as int,
                ).contains(x) && x != t),
            final(self).endpoints@[e as int].state == (if old(self).ep_queue(e as int).len() == 1 {
                EPState::Idle
            } else {
                old(self).endpoints@[e as int].state
            }),
            same_ntfns(*old(self), *final(self)),
            (old(self).tcbs@[t as int].state.reply_object matches Some(r) ==> replies_same_except(
                *old(self),
                *final(self),
                r as int,
            ) && final(self).replies@[r as int] == (crate::types::Reply {
                tcb: None,
                ..old(self).replies@[r as int]
            })),
            (old(self).tcbs@[t as int].state.reply_object is None ==> same_replies(
                *old(self),
                *final(self),
            )),
            same_scs(*old(self), *final(self)),
            same_cur(*old(self), *final(self)),
            final(self).ready_queue@ == old(self).ready_queue@,
            final(self).release_queue@ == old(self).release_queue@,
            final(self).switch_candidate == old(self).switch_candidate,
            final(self).timeout_event == old(self).timeout_event,
            final(self).resched == (old(self).resched || old(self).cur_thread == Some(t)),
    {
        proof {
            assert(old(self).tcb_ok(t as int));
            assert(old(self).ep_ok(e as int));
        }
        let ghost oldq = self.endpoints@[e as int].queue@;
        let ix = queue_remove(&mut self.endpoints[e].queue, t);
        if self.endpoints[e].queue.len() == 0 {
            self.endpoints[e].state = EPState::Idle;
        }
        match self.tcbs[t].state.reply_object {
            Some(r) => {
                proof {
                    assert(old(self).tcb_ok(t as int));
                }
                self.reply_unlink(r, t);
            },
            None => {},
        }
        self.set_thread_state(t, ThreadState::Inactive);
        proof {
            let a = *old(self);
            let b = *self;
            assert(oldq.index_of(t) == ix as int) by {
                assert(oldq[ix as int] == t);
                let j = oldq.index_of(t);
                assert(oldq[j] == t);
            }
            crate::kernel::lemma_wf_after_ep_cancel(a, b, e as int, t as int, ix as int);
        }
    }

    /// Take the head of a non-empty endpoint queue out for a rendezvous:
    /// the queue drops its head, the endpoint goes idle when it drains,
    /// a reply object linked to the head is unlinked, and the head is
    /// left inactive for the caller to wake.
    pub(crate) fn dequeue_head(&mut self, e: usize) -> (dest: usize)
        requires
            old(self).wf(),
            old(self).valid_ep(e as int),
            old(self).ep_queue(e as int).len() > 0,
        ensures
            final(self).wf(),
            dest == old(self).ep_queue(e as int)[0],
            old(self).valid_tcb(dest as int),
            tcbs_same_except(*old(self), *final(self), dest as int),
            final(self).tcbs@[dest as int] == (Tcb {
                state: ThreadStateRecord {
                    ts_type: ThreadState::Inactive,
                    reply_object: None,
                    ..old(self).tcbs@[dest as int].state
                },
                ..old(self).tcbs@[dest as int]
            }),
            eps_same_except(*old(self), *final(self), e as int),
            final(self).endpoints@[e as int].queue@ == old(self).ep_queue(e as int).remove(0),
            final(self).endpoints@[e as int].state == (if old(self).ep_queue(e as int).len()
                == 1 {
                EPState::Idle
            } else {
                old(self).endpoints@[e as int].state
            }),
            same_ntfns(*old(self), *final(self)),
            (old(self).tcbs@[dest as int].state.reply_object matches Some(r)
                ==> replies_same_except(*old(self), *final(self), r as int)
                && final(self).replies@[r as int] == (crate::types::Reply {
                tcb: None,
                ..old(self).replies@[r as int]
            })),
            (old(self).tcbs@[dest as int].state.reply_object is None ==> same_replies(
                *old(self),
                *final(self),
            )),
            same_scs(*old(self), *final(self)),
            same_cur(*old(self), *final(self)),
            final(self).ready_queue@ == old(self).ready_queue@,
            final(self).release_queue@ == old(self).release_queue@,
            final(self).switch_candidate == old(self).switch_candidate,
            final(self).timeout_event == old(self).timeout_event,
            final(self).resched == old(self).resched,
    {
        proof {
            assert(old(self).ep_ok(e as int));
            assert(old(self).ep_queue(e as int).contains(old(self).ep_queue(e as int)[0]));
        }
        let dest = self.endpoints[e].queue[0];
        self.endpoints[e].queue.remove(0);
        if self.endpoints[e].queue.len() == 0 {
            self.endpoints[e].state = EPState::Idle;
        }
        match self.tcbs[dest].state.reply_object {
            Some(r) => {
                proof {
                    assert(old(self).tcb_ok(dest as int));
                }
                self.replies[r].tcb = None;
                self.tcbs[dest].state.reply_object = None;
            },
            None => {},
        }
        self.tcbs[dest].state.ts_type = ThreadState::Inactive;
        proof {
            let a = *old(self);
            let b = *self;
            assert(a.endpoints@[e as int].state != EPState::Idle);
            crate::kernel::lemma_wf_after_ep_cancel(a, b, e as int, dest as int, 0);
        }
        dest
    }

    /// Send a message on the endpoint. With no receiver waiting, a
    /// blocking sender stamps its IPC control bits and queues up, and a
    /// non-blocking send is dropped silently. With a receiver queued,
    /// the head receives the message at once; a call then installs a
    /// caller capability in the receiver when granting allows, and
    /// otherwise the caller is left inactive, its call lost.
    #[verifier::rlimit(100)]
    #[verifier::spinoff_prover]
    pub fn send_ipc(
        &mut self,
        e: usize,
        src_thread: usize,
        blocking: bool,
        do_call: bool,
        can_grant: bool,
        badge: u64,
        can_grant_reply: bool,
    )
        requires
            old(self).wf(),
            old(self).valid_ep(e as int),
            old(self).valid_tcb(src_thread as int),
            old(self).tcbs@[src_thread as int].state.ts_type == ThreadState::Running,
            (old(self).endpoints@[e as int].state == EPState::Recv && do_call && (can_grant
                || can_grant_reply)) ==> old(self).tcbs@[old(self).ep_queue(
                e as int,
            )[0] as int].caller_slot is None,
        ensures
            final(self).wf(),
            same_ntfns(*old(self), *final(self)),
            same_cur(*old(self), *final(self)),
            final(self).ready_queue@ == old(self).ready_queue@,
            final(self).release_queue@ == old(self).release_queue@,
            final(self).timeout_event == old(self).timeout_event,
            (old(self).endpoints@[e as int].state != EPState::Recv ==> same_replies(
                *old(self),
                *final(self),
            )),
            (old(self).endpoints@[e as int].state == EPState::Recv ==> ({
                let dest = old(self).ep_queue(e as int)[0];
                &&& (old(self).tcbs@[dest as int].state.reply_object matches Some(r)
                    ==> replies_same_except(*old(self), *final(self), r as int)
                    && final(self).replies@[r as int] == (crate::types::Reply {
                    tcb: None,
                    ..old(self).replies@[r as int]
                }))
                &&& (old(self).tcbs@[dest as int].state.reply_object is None ==> same_replies(
                    *old(self),
                    *final(self),
                ))
            })),
            ({
                let ep0 = old(self).endpoints@[e as int];
                let src = old(self).tcbs@[src_thread as int];
                if ep0.state == EPState::Idle || ep0.state == EPState::Send {
                    if blocking {
                        &&& tcbs_same_except(*old(self), *final(self), src_thread as int)
                        &&& final(self).tcbs@[src_thread as int] == (Tcb {
                            state: ThreadStateRecord {
                                ts_type: ThreadState::BlockedOnSend,
                                blocking_object: Some(e),
                                blocking_badge: badge,
                                blocking_can_grant: can_grant,
                                blocking_can_grant_reply: can_grant_reply,
                                blocking_is_call: do_call,
                                ..src.state
                            },
                            ..src
                        })
                        &&& eps_same_except(*old(self), *final(self), e as int)
                        &&& final(self).endpoints@[e as int].queue@ == ep0.queue@.push(src_thread)
                        &&& final(self).endpoints@[e as int].state == EPState::Send
                        &&& same_scs(*old(self), *final(self))
                        &&& final(self).switch_candidate == old(self).switch_candidate
                        &&& final(self).resched == (old(self).resched || old(self).cur_thread
                            == Some(src_thread))
                    } else {
                        &&& same_tcbs(*old(self), *final(self))
                        &&& same_eps(*old(self), *final(self))
                        &&& same_scs(*old(self), *final(self))
                        &&& final(self).switch_candidate == old(self).switch_candidate
                        &&& final(self).resched == old(self).resched
                    }
                } else {
                    let dest = ep0.queue@[0];
                    let grant_path = do_call && (can_grant || can_grant_reply);
                    &&& tcbs_same_except2(
                        *old(self),
                        *final(self),
                        src_thread as int,
                        dest as int,
                    )
                    &&& eps_same_except(*old(self), *final(self), e as int)
                    &&& final(self).endpoints@[e as int].queue@ == ep0.queue@.remove(0)
                    &&& final(self).endpoints@[e as int].state == (if ep0.queue@.len() == 1 {
                        EPState::Idle
                    } else {
                        EPState::Recv
                    })
                    &&& crate::transfer::transferred_fields(
                        *old(self),
                        src_thread as int,
                        dest as int,
                        final(self).tcbs@[dest as int],
                        Some(e),
                        badge,
                        can_grant,
                    )
                    &&& final(self).tcbs@[dest as int].state == (ThreadStateRecord {
                        ts_type: ThreadState::Running,
                        reply_object: None,
                        ..old(self).tcbs@[dest as int].state
                    })
                    &&& crate::transfer::tcb_static_eq(
                        old(self).tcbs@[dest as int],
                        final(self).tcbs@[dest as int],
                    )
                    &&& final(self).tcbs@[dest as int].caller_slot_in == old(
                        self,
                    ).tcbs@[dest as int].caller_slot_in
                    &&& final(self).tcbs@[dest as int].caller_slot == (if grant_path {
                        Some(
                            CallerCap {
                                caller: src_thread,
                                can_grant: old(
                                    self,
                                ).tcbs@[dest as int].state.blocking_can_grant,
                            },
                        )
                    } else {
                        old(self).tcbs@[dest as int].caller_slot
                    })
                    &&& final(self).tcbs@[src_thread as int] == (if grant_path {
                        Tcb {
                            state: ThreadStateRecord {
                                ts_type: ThreadState::BlockedOnReply,
                                ..src.state
                            },
                            caller_slot_in: Some(dest),
                            ..src
                        }
                    } else if do_call {
                        Tcb {
                            state: ThreadStateRecord { ts_type: ThreadState::Inactive, ..src.state },
                            ..src
                        }
                    } else {
                        src
                    })
                    &&& crate::transfer::transfer_scs_rel(
                        *old(self),
                        *final(self),
                        src_thread as int,
                    )
                    &&& final(self).switch_candidate == Some(dest)
                    &&& final(self).resched == (old(self).resched || (do_call && old(
                        self,
                    ).cur_thread == Some(src_thread)))
                }
            }),
    {
        proof {
            assert(old(self).tcb_ok(src_thread as int));
            assert(old(self).ep_ok(e as int));
        }
        let st = self.get_ep_state(e);
        match st {
            EPState::Idle | EPState::Send => {
                if blocking {
                    self.tcbs[src_thread].state.blocking_object = Some(e);
                    self.tcbs[src_thread].state.blocking_can_grant = can_grant;
                    self.tcbs[src_thread].state.blocking_badge = badge;
                    self.tcbs[src_thread].state.blocking_can_grant_reply = can_grant_reply;
                    self.tcbs[src_thread].state.blocking_is_call = do_call;
                    self.set_thread_state(src_thread, ThreadState::BlockedOnSend);
                    self.endpoints[e].queue.push(src_thread);
                    self.endpoints[e].state = EPState::Send;
                    proof {
                        crate::kernel::lemma_wf_after_ep_block(
                            *old(self),
                            *self,
                            e as int,
                            src_thread as int,
                            true,
                        );
                    }
                }
            },
            EPState::Recv => {
                proof {
                    assert(old(self).ep_queue(e as int).contains(old(self).ep_queue(e as int)[0]));
                    assert(old(self).tcbs@[old(self).ep_queue(e as int)[0] as int].state.ts_type
                        == ThreadState::BlockedOnReceive);
                }
                let dest = self.dequeue_head(e);
                let ghost k1 = *self;
                self.do_ipc_transfer(src_thread, dest, Some(e), badge, can_grant);
                let ghost k2 = *self;
                let reply_can_grant = self.tcbs[dest].state.blocking_can_grant;
                self.set_thread_state(dest, ThreadState::Running);
                self.possible_switch_to(dest);
                proof {
                    crate::kernel::lemma_wf_after_unqueued_update(k2, *self, dest as int);
                }
                if do_call {
                    if can_grant || can_grant_reply {
                        let ghost k3 = *self;
                        proof {
                            assert(k3.tcb_ok(src_thread as int));
                        }
                        self.setup_caller_cap(dest, src_thread, reply_can_grant);
                        proof {
                            crate::kernel::lemma_wf_after_caller_cap_install(
                                k3,
                                *self,
                                dest as int,
                                src_thread as int,
                            );
                        }
                    } else {
                        let ghost k3 = *self;
                        self.set_thread_state(src_thread, ThreadState::Inactive);
                        proof {
                            crate::kernel::lemma_wf_after_unqueued_update(
                                k3,
                                *self,
                                src_thread as int,
                            );
                        }
                    }
                }
                proof {
                    let a = *old(self);
                    assert(crate::transfer::transferred_fields(
                        a,
                        src_thread as int,
                        dest as int,
                        self.tcbs@[dest as int],
                        Some(e),
                        badge,
                        can_grant,
                    )) by {
                        assert(crate::transfer::offered_caps(k1, src_thread as int, can_grant)
                            =~= crate::transfer::offered_caps(a, src_thread as int, can_grant));
                        assert(crate::transfer::fault_payload(k1, src_thread as int)
                            =~= crate::transfer::fault_payload(a, src_thread as int));
                        if a.tcbs@[src_thread as int].fault is NullFault {
                            assert(self.tcbs@[dest as int].arch.mrs@ =~= Seq::new(
                                a.tcbs@[dest as int].arch.mrs@.len(),
                                |j: int|
                                    if 0 <= j < crate::transfer::transferred_len(
                                        a,
                                        src_thread as int,
                                        dest as int,
                                    ) {
                                        a.tcbs@[src_thread as int].arch.mrs@[j]
                                    } else {
                                        a.tcbs@[dest as int].arch.mrs@[j]
                                    },
                            ));
                        } else {
                            assert(self.tcbs@[dest as int].arch.mrs@ =~= crate::transfer::write_mrs_spec(
                                a.tcbs@[dest as int].arch.mrs@,
                                a.tcbs@[dest as int].has_buffer,
                                0,
                                crate::transfer::fault_payload(a, src_thread as int),
                            ));
                        }
                    }
                }
            },
        }
    }

    /// Receive a message on the endpoint. A pending signal on the
    /// thread's bound notification is consumed instead, leaving the
    /// endpoint untouched. Otherwise, with no sender waiting, a blocking
    /// receiver queues up with its grant bit and a non-blocking one gets
    /// badge zero; with a sender queued, the head's message arrives at
    /// once, and a calling sender either leaves a caller capability
    /// behind or is left inactive.
    #[verifier::rlimit(100)]
    #[verifier::spinoff_prover]
    pub fn receive_ipc(&mut self, e: usize, thread: usize, is_blocking: bool, grant: bool)
        requires
            old(self).wf(),
            old(self).valid_ep(e as int),
            old(self).valid_tcb(thread as int),
            old(self).tcbs@[thread as int].state.ts_type == ThreadState::Running,
            ({
                let pending = old(self).tcbs@[thread as int].bound_notification matches Some(n)
                    && old(self).notifications@[n as int].state
                    == crate::types::NtfnState::Active;
                let head_call = old(self).endpoints@[e as int].state == EPState::Send && old(
                    self,
                ).tcbs@[old(self).ep_queue(e as int)[0] as int].state.blocking_is_call && (old(
                    self,
                ).tcbs@[old(self).ep_queue(e as int)[0] as int].state.blocking_can_grant || old(
                    self,
                ).tcbs@[old(self).ep_queue(
                    e as int,
                )[0] as int].state.blocking_can_grant_reply);
                (!pending && head_call) ==> old(self).tcbs@[thread as int].caller_slot is None
            }),
        ensures
            final(self).wf(),
            same_cur(*old(self), *final(self)),
            final(self).ready_queue@ == old(self).ready_queue@,
            final(self).release_queue@ == old(self).release_queue@,
            final(self).timeout_event == old(self).timeout_event,
            ({
                let pending = old(self).tcbs@[thread as int].bound_notification matches Some(n)
                    && old(self).notifications@[n as int].state
                    == crate::types::NtfnState::Active;
                let ep0 = old(self).endpoints@[e as int];
                if pending {
                    &&& crate::transfer::signal_consumed_rel(
                        *old(self),
                        *final(self),
                        thread as int,
                    )
                    &&& same_eps(*old(self), *final(self))
                    &&& same_replies(*old(self), *final(self))
                    &&& final(self).switch_candidate == old(self).switch_candidate
                    &&& final(self).resched == old(self).resched
                } else if ep0.state == EPState::Idle || ep0.state == EPState::Recv {
                    &&& same_ntfns(*old(self), *final(self))
                    &&& same_replies(*old(self), *final(self))
                    &&& same_scs(*old(self), *final(self))
                    &&& (if is_blocking {
                        &&& tcbs_same_except(*old(self), *final(self), thread as int)
                        &&& final(self).tcbs@[thread as int] == (Tcb {
                            state: ThreadStateRecord {
                                ts_type: ThreadState::BlockedOnReceive,
                                blocking_object: Some(e),
                                blocking_can_grant: grant,
                                ..old(self).tcbs@[thread as int].state
                            },
                            ..old(self).tcbs@[thread as int]
                        })
                        &&& eps_same_except(*old(self), *final(self), e as int)
                        &&& final(self).endpoints@[e as int].queue@ == ep0.queue@.push(thread)
                        &&& final(self).endpoints@[e as int].state == EPState::Recv
                        &&& final(self).resched == (old(self).resched || old(self).cur_thread
                            == Some(thread))
                    } else {
                        &&& tcbs_same_except(*old(self), *final(self), thread as int)
                        &&& final(self).tcbs@[thread as int] == (Tcb {
                            arch: crate::types::ArchTcb {
                                reg_badge: 0,
                                ..old(self).tcbs@[thread as int].arch
                            },
                            ..old(self).tcbs@[thread as int]
                        })
                        &&& same_eps(*old(self), *final(self))
                        &&& final(self).resched == old(self).resched
                    })
                    &&& final(self).switch_candidate == old(self).switch_candidate
                } else {
                    let sender = ep0.queue@[0];
                    let sst = old(self).tcbs@[sender as int].state;
                    let grant_path = sst.blocking_is_call && (sst.blocking_can_grant
                        || sst.blocking_can_grant_reply);
                    &&& same_ntfns(*old(self), *final(self))
                    &&& tcbs_same_except2(*old(self), *final(self), thread as int, sender as int)
                    &&& eps_same_except(*old(self), *final(self), e as int)
                    &&& final(self).endpoints@[e as int].queue@ == ep0.queue@.remove(0)
                    &&& final(self).endpoints@[e as int].state == (if ep0.queue@.len() == 1 {
                        EPState::Idle
                    } else {
                        EPState::Send
                    })
                    &&& crate::transfer::transferred_fields(
                        *old(self),
                        sender as int,
                        thread as int,
                        final(self).tcbs@[thread as int],
                        Some(e),
                        sst.blocking_badge,
                        sst.blocking_can_grant,
                    )
                    &&& final(self).tcbs@[thread as int].state == old(
                        self,
                    ).tcbs@[thread as int].state
                    &&& crate::transfer::tcb_static_eq(
                        old(self).tcbs@[thread as int],
                        final(self).tcbs@[thread as int],
                    )
                    &&& final(self).tcbs@[thread as int].caller_slot_in == old(
                        self,
                    ).tcbs@[thread as int].caller_slot_in
                    &&& final(self).tcbs@[thread as int].caller_slot == (if grant_path {
                        Some(CallerCap { caller: sender, can_grant: grant })
                    } else {
                        old(self).tcbs@[thread as int].caller_slot
                    })
                    &&& final(self).tcbs@[sender as int] == (if grant_path {
                        Tcb {
                            state: ThreadStateRecord {
                                ts_type: ThreadState::BlockedOnReply,
                                reply_object: None,
                                ..sst
                            },
                            caller_slot_in: Some(thread),
                            ..old(self).tcbs@[sender as int]
                        }
                    } else {
                        Tcb {
                            state: ThreadStateRecord {
                                ts_type: if sst.blocking_is_call {
                                    ThreadState::Inactive
                                } else {
                                    ThreadState::Running
                                },
                                reply_object: None,
                                ..sst
                            },
                            ..old(self).tcbs@[sender as int]
                        }
                    })
                    &&& (old(self).tcbs@[sender as int].state.reply_object matches Some(r)
                        ==> replies_same_except(*old(self), *final(self), r as int)
                        && final(self).replies@[r as int] == (crate::types::Reply {
                        tcb: None,
                        ..old(self).replies@[r as int]
                    }))
                    &&& (old(self).tcbs@[sender as int].state.reply_object is None
                        ==> same_replies(*old(self), *final(self)))
                    &&& crate::transfer::transfer_scs_rel(
                        *old(self),
                        *final(self),
                        sender as int,
                    )
                    &&& final(self).switch_candidate == (if sst.blocking_is_call {
                        old(self).switch_candidate
                    } else {
                        Some(sender)
                    })
                    &&& final(self).resched == (old(self).resched || (sst.blocking_is_call && old(
                        self,
                    ).cur_thread == Some(sender)))
                }
            }),
    {
        proof {
            assert(old(self).tcb_ok(thread as int));
            assert(old(self).ep_ok(e as int));
        }
        if self.complete_signal(thread) {
            return ;
        }
        let st = self.get_ep_state(e);
        match st {
            EPState::Idle | EPState::Recv => {
                if is_blocking {
                    self.tcbs[thread].state.blocking_object = Some(e);
                    self.tcbs[thread].state.blocking_can_grant = grant;
                    self.set_thread_state(thread, ThreadState::BlockedOnReceive);
                    self.endpoints[e].queue.push(thread);
                    self.endpoints[e].state = EPState::Recv;
                    proof {
                        crate::kernel::lemma_wf_after_ep_block(
                            *old(self),
                            *self,
                            e as int,
                            thread as int,
                            false,
                        );
                    }
                } else {
                    let ghost k0 = *self;
                    self.tcbs[thread].arch.reg_badge = 0;
                    proof {
                        crate::kernel::lemma_wf_preserved_links(k0, *self);
                    }
                }
            },
            EPState::Send => {
                proof {
                    assert(old(self).ep_queue(e as int).contains(old(self).ep_queue(e as int)[0]));
                    assert(old(self).tcbs@[old(self).ep_queue(e as int)[0] as int].state.ts_type
                        == ThreadState::BlockedOnSend);
                }
                let sender = self.dequeue_head(e);
                let ghost k1 = *self;
                let badge = self.tcbs[sender].state.blocking_badge;
                let can_grant = self.tcbs[sender].state.blocking_can_grant;
                let can_grant_reply = self.tcbs[sender].state.blocking_can_grant_reply;
                self.do_ipc_transfer(sender, thread, Some(e), badge, can_grant);
                let ghost k2 = *self;
                let do_call = self.tcbs[sender].state.blocking_is_call;
                if do_call {
                    if can_grant || can_grant_reply {
                        proof {
                            assert(k2.tcb_ok(sender as int));
                        }
                        self.setup_caller_cap(thread, sender, grant);
                        proof {
                            crate::kernel::lemma_wf_after_caller_cap_install(
                                k2,
                                *self,
                                thread as int,
                                sender as int,
                            );
                        }
                    } else {
                        self.set_thread_state(sender, ThreadState::Inactive);
                        proof {
                            crate::kernel::lemma_wf_after_unqueued_update(
                                k2,
                                *self,
                                sender as int,
                            );
                        }
                    }
                } else {
                    self.set_thread_state(sender, ThreadState::Running);
                    self.possible_switch_to(sender);
                    proof {
                        crate::kernel::lemma_wf_after_unqueued_update(k2, *self, sender as int);
                    }
                }
                proof {
                    let a = *old(self);
                    assert(crate::transfer::transferred_fields(
                        a,
                        sender as int,
                        thread as int,
                        self.tcbs@[thread as int],
                        Some(e),
                        badge,
                        can_grant,
                    )) by {
                        assert(crate::transfer::offered_caps(k1, sender as int, can_grant)
                            =~= crate::transfer::offered_caps(a, sender as int, can_grant));
                        assert(crate::transfer::fault_payload(k1, sender as int)
                            =~= crate::transfer::fault_payload(a, sender as int));
                        if a.tcbs@[sender as int].fault is NullFault {
                            assert(self.tcbs@[thread as int].arch.mrs@ =~= Seq::new(
                                a.tcbs@[thread as int].arch.mrs@.len(),
                                |j: int|
                                    if 0 <= j < crate::transfer::transferred_len(
                                        a,
                                        sender as int,
                                        thread as int,
                                    ) {
                                        a.tcbs@[sender as int].arch.mrs@[j]
                                    } else {
                                        a.tcbs@[thread as int].arch.mrs@[j]
                                    },
                            ));
                        } else {
                            assert(self.tcbs@[thread as int].arch.mrs@
                                =~= crate::transfer::write_mrs_spec(
                                a.tcbs@[thread as int].arch.mrs@,
                                a.tcbs@[thread as int].has_buffer,
                                0,
                                crate::transfer::fault_payload(a, sender as int),
                            ));
                        }
                    }
                }
            },
        }
    }

    /// Cancel every pending IPC on the endpoint: it goes idle first,
    /// then each previously queued thread has its reply object unlinked,
    /// is restarted and handed to the scheduler, and a reschedule is
    /// requested.
    #[verifier::rlimit(60)]
    pub fn cancel_all_ipc(&mut self, e: usize)
        requires
            old(self).wf(),
            old(self).valid_ep(e as int),
        ensures
            final(self).wf(),
            same_ntfns(*old(self), *final(self)),
            same_scs(*old(self), *final(self)),
            same_cur(*old(self), *final(self)),
            final(self).release_queue@ == old(self).release_queue@,
            final(self).switch_candidate == old(self).switch_candidate,
            final(self).timeout_event == old(self).timeout_event,
            ({
                let ep0 = old(self).endpoints@[e as int];
                let oldq = ep0.queue@;
                if ep0.state == EPState::Idle {
                    &&& same_tcbs(*old(self), *final(self))
                    &&& same_eps(*old(self), *final(self))
                    &&& same_replies(*old(self), *final(self))
                    &&& final(self).ready_queue@ == old(self).ready_queue@
                    &&& final(self).resched == old(self).resched
                } else {
                    &&& eps_same_except(*old(self), *final(self), e as int)
                    &&& final(self).endpoints@[e as int].state == EPState::Idle
                    &&& final(self).endpoints@[e as int].queue@ == Seq::<usize>::empty()
                    &&& final(self).tcbs@.len() == old(self).tcbs@.len()
                    &&& (forall|j: int| 0 <= j < oldq.len() ==> final(self).tcbs@[
                        #[trigger] oldq[j] as int] == (Tcb {
                        state: ThreadStateRecord {
                            ts_type: ThreadState::Restart,
                            reply_object: None,
                            ..old(self).tcbs@[oldq[j] as int].state
                        },
                        ..old(self).tcbs@[oldq[j] as int]
                    }))
                    &&& (forall|k: int| 0 <= k < old(self).tcbs@.len() && !oldq.contains(
                        k as usize,
                    ) ==> #[trigger] final(self).tcbs@[k] == old(self).tcbs@[k])
                    &&& final(self).replies@.len() == old(self).replies@.len()
                    &&& (forall|r: int| 0 <= r < old(self).replies@.len()
                        ==> #[trigger] final(self).replies@[r] == (
                    if old(self).replies@[r].tcb matches Some(t) && oldq.contains(t) {
                        crate::types::Reply { tcb: None, ..old(self).replies@[r] }
                    } else {
                        old(self).replies@[r]
                    }))
                    &&& final(self).ready_queue@ == old(self).ready_queue@ + oldq
                    &&& final(self).resched == true
                }
            }),
    {
        proof {
            assert(old(self).ep_ok(e as int));
        }
        let st = self.get_ep_state(e);
        if st == EPState::Idle {
            return ;
        }
        let q = self.endpoints[e].queue.clone();
        proof {
            assert(q@ =~= old(self).endpoints@[e as int].queue@);
        }
        self.endpoints[e].queue.clear();
        self.endpoints[e].state = EPState::Idle;
        let ghost a = *old(self);
        let ghost oldq = a.endpoints@[e as int].queue@;
        let mut i: usize = 0;
        while i < q.len()
            invariant
                a.wf(),
                a == *old(self),
                q@ == oldq,
                i <= oldq.len(),
                a.valid_ep(e as int),
                oldq == a.ep_queue(e as int),
                a.endpoints@[e as int].state != EPState::Idle,
                a.ep_ok(e as int),
                self.tcbs@.len() == a.tcbs@.len(),
                eps_same_except(a, *self, e as int),
                self.endpoints@[e as int].state == EPState::Idle,
                self.endpoints@[e as int].queue@ == Seq::<usize>::empty(),
                same_ntfns(a, *self),
                same_scs(a, *self),
                same_cur(a, *self),
                forall|j: int| 0 <= j < i ==> self.tcbs@[#[trigger] oldq[j] as int] == (Tcb {
                    state: ThreadStateRecord {
                        ts_type: ThreadState::Restart,
                        reply_object: None,
                        ..a.tcbs@[oldq[j] as int].state
                    },
                    ..a.tcbs@[oldq[j] as int]
                }),
                forall|j: int| i <= j < oldq.len() ==> self.tcbs@[#[trigger] oldq[j] as int]
                    == a.tcbs@[oldq[j] as int],
                forall|k: int| 0 <= k < a.tcbs@.len() && !oldq.contains(k as usize)
                    ==> #[trigger] self.tcbs@[k] == a.tcbs@[k],
                self.replies@.len() == a.replies@.len(),
                forall|r: int| 0 <= r < a.replies@.len() ==> #[trigger] self.replies@[r] == (
                if a.replies@[r].tcb matches Some(t) && oldq.subrange(0, i as int).contains(t) {
                    crate::types::Reply { tcb: None, ..a.replies@[r] }
                } else {
                    a.replies@[r]
                }),
                self.ready_queue@ == a.ready_queue@ + oldq.subrange(0, i as int),
                self.release_queue@ == a.release_queue@,
                self.switch_candidate == a.switch_candidate,
                self.timeout_event == a.timeout_event,
                self.resched == a.resched,
            decreases q@.len() - i,
        {
            let t = q[i];
            proof {
                assert(oldq.contains(oldq[i as int]));
                assert(a.valid_tcb(t as int));
                a.lemma_len_bounds();
                assert(a.tcb_ok(t as int));
                assert forall|j: int| 0 <= j < oldq.len() && j != i implies oldq[j]
                    != oldq[i as int] by {}
            }
            let ghost pre = *self;
            match self.tcbs[t].state.reply_object {
                Some(r) => {
                    proof {
                        assert(pre.tcbs@[t as int] == a.tcbs@[t as int]);
                        assert(a.valid_reply(r as int));
                        assert(a.replies@[r as int].tcb == Some(t));
                    }
                    self.replies[r].tcb = None;
                    self.tcbs[t].state.reply_object = None;
                },
                None => {},
            }
            self.set_thread_state(t, ThreadState::Restart);
            self.sched_enqueue(t);
            i = i + 1;
            proof {
                broadcast use vstd::seq_lib::lemma_seq_contains_after_push;

                assert(self.ready_queue@ =~= a.ready_queue@ + oldq.subrange(0, i as int));
                assert(oldq.subrange(0, i as int) =~= oldq.subrange(0, i as int - 1).push(
                    oldq[i as int - 1],
                ));
                assert(!oldq.subrange(0, i as int - 1).contains(t)) by {
                    if oldq.subrange(0, i as int - 1).contains(t) {
                        let sub = oldq.subrange(0, i as int - 1);
                        let w = choose|w: int| 0 <= w < sub.len() && sub[w] == t;
                        assert(oldq[w] == t);
                    }
                }
                assert forall|r: int| 0 <= r < a.replies@.len() implies #[trigger] self.replies@[r]
                    == (if a.replies@[r].tcb matches Some(t2) && oldq.subrange(
                    0,
                    i as int,
                ).contains(t2) {
                    crate::types::Reply { tcb: None, ..a.replies@[r] }
                } else {
                    a.replies@[r]
                }) by {
                    match a.replies@[r].tcb {
                        Some(t2) => {
                            if t2 == t {
                                assert(a.reply_ok(r));
                                assert(a.tcbs@[t as int].state.reply_object == Some(r as usize));
                                assert(pre.replies@[r] == a.replies@[r]);
                                assert(self.replies@[r].tcb is None);
                                assert(oldq.subrange(0, i as int).contains(t));
                            } else {
                                assert(oldq.subrange(0, i as int).contains(t2)
                                    == oldq.subrange(0, i as int - 1).contains(t2));
                                match a.tcbs@[t as int].state.reply_object {
                                    Some(r0) => {
                                        assert(a.reply_ok(r0 as int));
                                        assert(r0 as int != r) by {
                                            if r0 as int == r {
                                                assert(a.replies@[r].tcb == Some(t));
                                            }
                                        }
                                        assert(self.replies@[r] == pre.replies@[r]);
                                    },
                                    None => {
                                        assert(self.replies@[r] == pre.replies@[r]);
                                    },
                                }
                            }
                        },
                        None => {
                            match a.tcbs@[t as int].state.reply_object {
                                Some(r0) => {
                                    assert(a.reply_ok(r0 as int));
                                    assert(r0 as int != r) by {
                                        if r0 as int == r {
                                            assert(a.replies@[r].tcb == Some(t));
                                        }
                                    }
                                    assert(self.replies@[r] == pre.replies@[r]);
                                },
                                None => {
                                    assert(self.replies@[r] == pre.replies@[r]);
                                },
                            }
                        },
                    }
                }
            }
        }
        self.reschedule_required();
        proof {
            assert(oldq.subrange(0, oldq.len() as int) == oldq);
            crate::kernel::lemma_wf_after_ep_cancel_all(a, *self, e as int);
        }
    }

    /// Cancel the senders whose stored badge matches: each is restarted
    /// and handed to the scheduler, the survivors keep their order, and
    /// the endpoint stays sending exactly when one survives. Meaningful
    /// only in the send state; otherwise nothing happens.
    #[verifier::rlimit(60)]
    pub fn cancel_badged_sends(&mut self, e: usize, badge: u64)
        requires
            old(self).wf(),
            old(self).valid_ep(e as int),
        ensures
            final(self).wf(),
            same_ntfns(*old(self), *final(self)),
            same_replies(*old(self), *final(self)),
            same_scs(*old(self), *final(self)),
            same_cur(*old(self), *final(self)),
            final(self).release_queue@ == old(self).release_queue@,
            final(self).switch_candidate == old(self).switch_candidate,
            final(self).timeout_event == old(self).timeout_event,
            ({
                let ep0 = old(self).endpoints@[e as int];
                let oldq = ep0.queue@;
                if ep0.state != EPState::Send {
                    &&& same_tcbs(*old(self), *final(self))
                    &&& same_eps(*old(self), *final(self))
                    &&& final(self).ready_queue@ == old(self).ready_queue@
                    &&& final(self).resched == old(self).resched
                } else {
                    let keep = oldq.filter(
                        |x: usize| old(self).tcbs@[x as int].state.blocking_badge != badge,
                    );
                    let gone = oldq.filter(
                        |x: usize| old(self).tcbs@[x as int].state.blocking_badge == badge,
                    );
                    &&& eps_same_except(*old(self), *final(self), e as int)
                    &&& final(self).endpoints@[e as int].queue@ == keep
                    &&& final(self).endpoints@[e as int].state == (if keep.len() == 0 {
                        EPState::Idle
                    } else {
                        EPState::Send
                    })
                    &&& final(self).tcbs@.len() == old(self).tcbs@.len()
                    &&& (forall|j: int| 0 <= j < oldq.len() ==> final(self).tcbs@[
                        #[trigger] oldq[j] as int] == (
                    if old(self).tcbs@[oldq[j] as int].state.blocking_badge == badge {
                        Tcb {
                            state: ThreadStateRecord {
                                ts_type: ThreadState::Restart,
                                ..old(self).tcbs@[oldq[j] as int].state
                            },
                            ..old(self).tcbs@[oldq[j] as int]
                        }
                    } else {
                        old(self).tcbs@[oldq[j] as int]
                    }))
                    &&& (forall|k: int| 0 <= k < old(self).tcbs@.len() && !oldq.contains(
                        k as usize,
                    ) ==> #[trigger] final(self).tcbs@[k] == old(self).tcbs@[k])
                    &&& final(self).ready_queue@ == old(self).ready_queue@ + gone
                    &&& final(self).resched == true
                }
            }),
    {
        proof {
            assert(old(self).ep_ok(e as int));
        }
        let st = self.get_ep_state(e);
        if st != EPState::Send {
            return ;
        }
        let q = self.endpoints[e].queue.clone();
        proof {
            assert(q@ =~= old(self).endpoints@[e as int].queue@);
        }
        self.endpoints[e].queue.clear();
        self.endpoints[e].state = EPState::Idle;
        let ghost a = *old(self);
        let ghost oldq = a.endpoints@[e as int].queue@;
        let ghost keep_pred = |x: usize| a.tcbs@[x as int].state.blocking_badge != badge;
        let ghost gone_pred = |x: usize| a.tcbs@[x as int].state.blocking_badge == badge;
        let mut survivors: Vec<usize> = Vec::new();
        proof {
            reveal(Seq::filter);
            assert(oldq.subrange(0, 0) =~= Seq::<usize>::empty());
        }
        let mut i: usize = 0;
        while i < q.len()
            invariant
                a.wf(),
                a == *old(self),
                q@ == oldq,
                i <= oldq.len(),
                a.valid_ep(e as int),
                oldq == a.ep_queue(e as int),
                a.endpoints@[e as int].state == EPState::Send,
                a.ep_ok(e as int),
                keep_pred == (|x: usize| a.tcbs@[x as int].state.blocking_badge != badge),
                gone_pred == (|x: usize| a.tcbs@[x as int].state.blocking_badge == badge),
                self.tcbs@.len() == a.tcbs@.len(),
                eps_same_except(a, *self, e as int),
                self.endpoints@[e as int].state == EPState::Idle,
                self.endpoints@[e as int].queue@ == Seq::<usize>::empty(),
                same_ntfns(a, *self),
                same_replies(a, *self),
                same_scs(a, *self),
                same_cur(a, *self),
                survivors@ == oldq.subrange(0, i as int).filter(keep_pred),
                forall|j: int| 0 <= j < i ==> self.tcbs@[#[trigger] oldq[j] as int] == (
                if a.tcbs@[oldq[j] as int].state.blocking_badge == badge {
                    Tcb {
                        state: ThreadStateRecord {
                            ts_type: ThreadState::Restart,
                            ..a.tcbs@[oldq[j] as int].state
                        },
                        ..a.tcbs@[oldq[j] as int]
                    }
                } else {
                    a.tcbs@[oldq[j] as int]
                }),
                forall|j: int| i <= j < oldq.len() ==> self.tcbs@[#[trigger] oldq[j] as int]
                    == a.tcbs@[oldq[j] as int],
                forall|k: int| 0 <= k < a.tcbs@.len() && !oldq.contains(k as usize)
                    ==> #[trigger] self.tcbs@[k] == a.tcbs@[k],
                self.ready_queue@ == a.ready_queue@ + oldq.subrange(0, i as int).filter(
                    gone_pred,
                ),
                self.release_queue@ == a.release_queue@,
                self.switch_candidate == a.switch_candidate,
                self.timeout_event == a.timeout_event,
                self.resched == a.resched,
            decreases q@.len() - i,
        {
            let t = q[i];
            proof {
                assert(oldq.contains(oldq[i as int]));
                assert(a.valid_tcb(t as int));
                a.lemma_len_bounds();
                assert(a.tcb_ok(t as int));
                assert forall|j: int| 0 <= j < oldq.len() && j != i implies oldq[j]
                    != oldq[i as int] by {}
            }
            let matches_badge = self.tcbs[t].state.blocking_badge == badge;
            if matches_badge {
                self.set_thread_state(t, ThreadState::Restart);
                self.sched_enqueue(t);
            } else {
                survivors.push(t);
            }
            i = i + 1;
            proof {
                reveal(Seq::filter);
                let s1 = oldq.subrange(0, i as int);
                let s0 = oldq.subrange(0, i as int - 1);
                assert(s1.drop_last() =~= s0);
                assert(s1.last() == oldq[i as int - 1]);
                assert(s1.filter(keep_pred) == if keep_pred(oldq[i as int - 1]) {
                    s0.filter(keep_pred).push(oldq[i as int - 1])
                } else {
                    s0.filter(keep_pred)
                });
                assert(s1.filter(gone_pred) == if gone_pred(oldq[i as int - 1]) {
                    s0.filter(gone_pred).push(oldq[i as int - 1])
                } else {
                    s0.filter(gone_pred)
                });
                assert(self.ready_queue@ =~= a.ready_queue@ + s1.filter(gone_pred));
            }
        }
        proof {
            assert(oldq.subrange(0, oldq.len() as int) == oldq);
        }
        let any_left = survivors.len() > 0;
        self.endpoints[e].queue = survivors;
        if any_left {
            self.endpoints[e].state = EPState::Send;
        }
        self.reschedule_required();
        proof {
            crate::kernel::lemma_wf_after_badged_cancel(a, *self, e as int, badge);
        }
    }

    /// Move a queued thread to the back of the endpoint's queue, after a
    /// priority change.
    #[allow(non_snake_case)]
    pub fn reorder_EP(&mut self, e: usize, t: usize)
        requires
            old(self).wf(),
            old(self).valid_ep(e as int),
            old(self).valid_tcb(t as int),
            old(self).tcbs@[t as int].state.ts_type == ThreadState::BlockedOnSend || old(
                self,
            ).tcbs@[t as int].state.ts_type == ThreadState::BlockedOnReceive,
            old(self).tcbs@[t as int].state.blocking_object == Some(e),
        ensures
            final(self).wf(),
            same_tcbs(*old(self), *final(self)),
            eps_same_except(*old(self), *final(self), e as int),
            final(self).endpoints@[e as int].queue@ == old(self).ep_queue(e as int).remove(
                old(self).ep_queue(e as int).index_of(t),
            ).push(t),
            final(self).endpoints@[e as int].state == old(self).endpoints@[e as int].state,
            same_ntfns(*old(self), *final(self)),
            same_replies(*old(self), *final(self)),
            same_scs(*old(self), *final(self)),
            crate::kernel::same_sched(*old(self), *final(self)),
    {
        proof {
            assert(old(self).tcb_ok(t as int));
            assert(old(self).ep_ok(e as int));
        }
        let ghost oldq = self.endpoints@[e as int].queue@;
        let ix = queue_remove(&mut self.endpoints[e].queue, t);
        self.endpoints[e].queue.push(t);
        proof {
            broadcast use vstd::seq_lib::lemma_seq_contains_after_push;

            let a = *old(self);
            let b = *self;
            a.lemma_len_bounds();
            assert(oldq.index_of(t) == ix as int) by {
                assert(oldq[ix as int] == t);
                let j = oldq.index_of(t);
                assert(oldq[j] == t);
            }
            assert(b.ep_queue(e as int) == oldq.remove(ix as int).push(t));
            assert forall|x: usize| #[trigger] b.ep_queue(e as int).contains(x) implies
                oldq.contains(x) by {
                if x != t {
                    assert(oldq.remove(ix as int).contains(x));
                }
            }
            assert forall|tt: int| 0 <= tt < b.tcbs@.len() implies b.tcb_ok(tt) by {
                assert(a.tcb_ok(tt));
                if a.tcbs@[tt].state.ts_type == ThreadState::BlockedOnSend
                    || a.tcbs@[tt].state.ts_type == ThreadState::BlockedOnReceive {
                    let m = a.tcbs@[tt].state.blocking_object->0;
                    if m == e {
                        if tt == t {
                            assert(b.ep_queue(e as int).contains(t));
                        } else {
                            assert(a.ep_queue(e as int).contains(tt as usize));
                            assert(oldq.remove(ix as int).contains(tt as usize));
                            assert(b.ep_queue(e as int).contains(tt as usize));
                        }
                    }
                }
            }
            assert forall|e2: int| 0 <= e2 < b.endpoints@.len() implies b.ep_ok(e2) by {
                assert(a.ep_ok(e2));
                if e2 == e {
                    assert(crate::kernel::distinct_seq(b.ep_queue(e as int))) by {
                        assert(!oldq.remove(ix as int).contains(t));
                    }
                    assert(b.ep_queue(e as int).len() == oldq.len());
                    assert forall|i: int| 0 <= i < b.ep_queue(e as int).len() implies {
                        let tcb = b.tcbs@[#[trigger] b.ep_queue(e as int)[i] as int];
                        b.valid_tcb(b.ep_queue(e as int)[i] as int)
                    } by {
                        assert(b.ep_queue(e as int).contains(b.ep_queue(e as int)[i]));
                        assert(oldq.contains(b.ep_queue(e as int)[i]));
                    }
                    assert forall|i: int| 0 <= i < b.ep_queue(e as int).len() implies
                        oldq.contains(#[trigger] b.ep_queue(e as int)[i]) by {
                        assert(b.ep_queue(e as int).contains(b.ep_queue(e as int)[i]));
                    }
                }
            }
            assert forall|m: int| 0 <= m < b.notifications@.len() implies b.ntfn_ok(m) by {
                assert(a.ntfn_ok(m));
            }
            assert forall|r: int| 0 <= r < b.replies@.len() implies b.reply_ok(r) by {
                assert(a.reply_ok(r));
            }
            assert forall|s: int| 0 <= s < b.scs@.len() implies b.sc_ok(s) by {
                assert(a.sc_ok(s));
            }
        }
    }
}

} // verus!
