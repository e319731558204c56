//! The transfer engine: cancellation dispatch, bound-notification signal
//! completion, message-register and capability transfer, fault
//! marshalling, and reply delivery.

use vstd::prelude::*;

use crate::kernel::{
    eps_same_except, ntfns_same_except, replies_same_except, same_cur, same_eps, same_ntfns,
    same_replies, same_scs, same_sched, same_tcbs, scs_same_except, tcbs_same_except,
    tcbs_same_except2, Kernel,
};
use crate::types::{
    ArchTcb, Cap, EPState, Fault, FaultMessageId, LookupFault, MsgInfo, Notification, NtfnState,
    ReceiveSlot, SchedContext, Tcb, ThreadState, ThreadStateRecord, FAULT_LABEL_CAP_FAULT,
    FAULT_LABEL_TIMEOUT, FAULT_LABEL_UNKNOWN_SYSCALL, FAULT_LABEL_USER_EXCEPTION,
    FAULT_LABEL_VM_FAULT, LOOKUP_DEPTH_MISMATCH, LOOKUP_GUARD_MISMATCH, LOOKUP_INVALID_ROOT,
    LOOKUP_MISSING_CAPABILITY, MAX_EXTRA_CAPS, MSG_MAX_LENGTH, N_CONTEXT_REGISTERS,
    N_EXCEPTION_MESSAGE, N_MSG_REGISTERS, N_SYSCALL_MESSAGE, N_TIMEOUT_MESSAGE, REG_A0,
    REG_FAULT_IP, REG_SP,
};

verus! {

/// How many message words a thread can carry: only the message registers
/// without a mapped IPC buffer, the full message with one.
pub open spec fn msg_limit(has_buffer: bool) -> int {
    if has_buffer {
        MSG_MAX_LENGTH as int
    } else {
        N_MSG_REGISTERS as int
    }
}

/// The message words after writing `vals` at `offset`, one word per
/// position, dropping what falls beyond the thread's limit.
pub open spec fn write_mrs_spec(mrs: Seq<u64>, has_buffer: bool, offset: int, vals: Seq<u64>) -> Seq<
    u64,
> {
    Seq::new(
        mrs.len(),
        |j: int|
            if offset <= j < offset + vals.len() && j < msg_limit(has_buffer) {
                vals[j - offset]
            } else {
                mrs[j]
            },
    )
}

/// What a chain of message writes reports as the next free position: one
/// past the last word when it fit, the register count when it did not.
pub open spec fn write_mrs_next(has_buffer: bool, offset: int, count: int) -> int {
    if offset + count - 1 < msg_limit(has_buffer) {
        offset + count
    } else {
        N_MSG_REGISTERS as int
    }
}

/// The label a fault is transferred under.
pub open spec fn fault_label(f: Fault) -> u64 {
    match f {
        Fault::NullFault => 0,
        Fault::CapFault { .. } => FAULT_LABEL_CAP_FAULT,
        Fault::UnknownSyscall { .. } => FAULT_LABEL_UNKNOWN_SYSCALL,
        Fault::UserException { .. } => FAULT_LABEL_USER_EXCEPTION,
        Fault::VMFault { .. } => FAULT_LABEL_VM_FAULT,
        Fault::Timeout { .. } => FAULT_LABEL_TIMEOUT,
    }
}

/// The lookup-failure code marshalled first.
pub open spec fn lookup_fault_code(l: LookupFault) -> u64 {
    match l {
        LookupFault::InvalidRoot => LOOKUP_INVALID_ROOT,
        LookupFault::MissingCapability { .. } => LOOKUP_MISSING_CAPABILITY,
        LookupFault::DepthMismatch { .. } => LOOKUP_DEPTH_MISMATCH,
        LookupFault::GuardMismatch { .. } => LOOKUP_GUARD_MISMATCH,
    }
}

/// The argument words of a lookup failure, marshalled after its code.
pub open spec fn lookup_fault_args(l: LookupFault) -> Seq<u64> {
    match l {
        LookupFault::InvalidRoot => Seq::empty(),
        LookupFault::MissingCapability { bits_left } => seq![bits_left],
        LookupFault::DepthMismatch { bits_left, bits_found } => seq![bits_left, bits_found],
        LookupFault::GuardMismatch { bits_left, guard_found, bits_found } => seq![
            bits_left,
            guard_found,
            bits_found,
        ],
    }
}

/// The register index the `i`-th word of a fault message comes from or
/// returns to.
pub open spec fn fault_message_register_spec(id: FaultMessageId, i: int) -> int {
    match id {
        FaultMessageId::Syscall => {
            if i < 8 {
                REG_A0 + i
            } else if i == 8 {
                REG_FAULT_IP as int
            } else {
                REG_SP as int
            }
        },
        FaultMessageId::Exception => i,
        FaultMessageId::TimeoutReply => i,
    }
}

/// The message words a thread's fault is marshalled into. A timeout
/// fault reports the consumed time of the thread's scheduling context
/// when it has one.
pub open spec fn fault_payload(k: Kernel, t: int) -> Seq<u64> {
    let tcb = k.tcbs@[t];
    match tcb.fault {
        Fault::NullFault => Seq::empty(),
        Fault::CapFault { address, in_receive_phase } => seq![
            tcb.arch.regs@[REG_FAULT_IP as int],
            address,
            if in_receive_phase {
                1u64
            } else {
                0u64
            },
            lookup_fault_code(tcb.lookup_failure),
        ] + lookup_fault_args(tcb.lookup_failure),
        Fault::UnknownSyscall { syscall_number } => Seq::new(
            N_SYSCALL_MESSAGE as nat,
            |i: int| tcb.arch.regs@[fault_message_register_spec(FaultMessageId::Syscall, i)],
        ) + seq![syscall_number],
        Fault::UserException { number, code } => Seq::new(
            N_EXCEPTION_MESSAGE as nat,
            |i: int| tcb.arch.regs@[fault_message_register_spec(FaultMessageId::Exception, i)],
        ) + seq![number, code],
        Fault::VMFault { address, fsr, instruction_fault } => seq![
            tcb.arch.regs@[REG_FAULT_IP as int],
            address,
            if instruction_fault {
                1u64
            } else {
                0u64
            },
            fsr,
        ],
        Fault::Timeout { badge } => {
            match tcb.sched_context {
                Some(s) => seq![badge, k.scs@[s as int].consumed],
                None => seq![badge],
            }
        },
    }
}

/// Whether the capability is the receiver's own endpoint capability,
/// eligible for the badge-unwrap shortcut.
pub open spec fn cap_unwrappable(c: Cap, ep: Option<usize>) -> bool {
    match c {
        Cap::EndpointCap { ep: ce, .. } => ep matches Some(e) && ce == e,
        _ => false,
    }
}

/// Whether the capability space can derive the capability; in this model
/// a derived capability equals the original.
pub open spec fn cap_derivable(c: Cap) -> bool {
    match c {
        Cap::Null => false,
        Cap::EndpointCap { .. } => true,
        Cap::Other { derive_ok, .. } => derive_ok,
    }
}

/// The badge of an endpoint capability.
pub open spec fn cap_ep_badge(c: Cap) -> u64 {
    match c {
        Cap::EndpointCap { badge, .. } => badge,
        _ => 0,
    }
}

/// Where the extra-capability transfer loop stops: at the first null
/// entry, at the first entry that cannot be unwrapped once the single
/// receive slot is spent or derivation fails, or past the end.
pub open spec fn caps_transfer_end(caps: Seq<Cap>, ep: Option<usize>, free: bool, i: int) -> int
    decreases caps.len() - i,
{
    if i < 0 || i >= caps.len() || caps[i] is Null {
        i
    } else if cap_unwrappable(caps[i], ep) {
        caps_transfer_end(caps, ep, free, i + 1)
    } else if free && cap_derivable(caps[i]) {
        caps_transfer_end(caps, ep, false, i + 1)
    } else {
        i
    }
}

/// The caps-unwrapped bitmap the transfer loop accumulates.
pub open spec fn caps_unwrap_mask(caps: Seq<Cap>, ep: Option<usize>, free: bool, i: int) -> u64
    decreases caps.len() - i,
{
    if i < 0 || i >= caps.len() || caps[i] is Null {
        0
    } else if cap_unwrappable(caps[i], ep) {
        caps_unwrap_mask(caps, ep, free, i + 1) | (1u64 << i)
    } else if free && cap_derivable(caps[i]) {
        caps_unwrap_mask(caps, ep, false, i + 1)
    } else {
        0
    }
}

/// The receiver's badge words after the transfer loop: every unwrapped
/// position holds the capability's badge.
pub open spec fn caps_badge_writes(
    caps: Seq<Cap>,
    ep: Option<usize>,
    free: bool,
    i: int,
    b: Seq<u64>,
) -> Seq<u64>
    decreases caps.len() - i,
{
    if i < 0 || i >= caps.len() || caps[i] is Null {
        b
    } else if cap_unwrappable(caps[i], ep) {
        caps_badge_writes(caps, ep, free, i + 1, b.update(i, cap_ep_badge(caps[i])))
    } else if free && cap_derivable(caps[i]) {
        caps_badge_writes(caps, ep, false, i + 1, b)
    } else {
        b
    }
}

/// The capability the transfer loop installs in the receive slot, if
/// any: the first derivable entry that is not unwrapped.
pub open spec fn caps_installed(caps: Seq<Cap>, ep: Option<usize>, free: bool, i: int) -> Option<
    Cap,
>
    decreases caps.len() - i,
{
    if i < 0 || i >= caps.len() || caps[i] is Null {
        None
    } else if cap_unwrappable(caps[i], ep) {
        caps_installed(caps, ep, free, i + 1)
    } else if free && cap_derivable(caps[i]) {
        Some(caps[i])
    } else {
        None
    }
}

/// The message layout a fault reply to the given fault uses.
pub open spec fn fault_reply_id(f: Fault) -> FaultMessageId {
    match f {
        Fault::UnknownSyscall { .. } => FaultMessageId::Syscall,
        Fault::UserException { .. } => FaultMessageId::Exception,
        Fault::Timeout { .. } => FaultMessageId::TimeoutReply,
        _ => FaultMessageId::Syscall,
    }
}

/// How many words a fault reply restores: the replier's message length,
/// capped by the fault's message length and by the replier's buffer.
pub open spec fn fault_reply_len(a: Kernel, sender: int, receiver: int) -> int {
    let f = a.tcbs@[receiver].fault;
    let n: int = match f {
        Fault::UnknownSyscall { .. } => N_SYSCALL_MESSAGE as int,
        Fault::UserException { .. } => N_EXCEPTION_MESSAGE as int,
        Fault::Timeout { .. } => N_TIMEOUT_MESSAGE as int,
        _ => 0,
    };
    let want = a.tcbs@[sender].arch.reg_msg_info.length as int;
    let m = if want < n {
        want
    } else {
        n
    };
    if !a.tcbs@[sender].has_buffer && m > N_MSG_REGISTERS {
        N_MSG_REGISTERS as int
    } else {
        m
    }
}

/// The faulted thread's registers after a fault reply: each restored
/// register holds the reply word addressed to it.
pub open spec fn fault_reply_regs(a: Kernel, sender: int, receiver: int) -> Seq<u64> {
    let f = a.tcbs@[receiver].fault;
    let len = fault_reply_len(a, sender, receiver);
    Seq::new(
        a.tcbs@[receiver].arch.regs@.len(),
        |j: int|
            if exists|w: int|
                0 <= w < len && fault_message_register_spec(fault_reply_id(f), w) == j {
                a.tcbs@[sender].arch.mrs@[choose|w: int|
                    0 <= w < len && fault_message_register_spec(fault_reply_id(f), w) == j]
            } else {
                a.tcbs@[receiver].arch.regs@[j]
            },
    )
}

/// The transfer-facing fields of a rendezvous partner after the message
/// moved: `yt` is the receiver's thread control block afterwards, with
/// everything read from the pre-transfer state `a`.
pub open spec fn transferred_fields(
    a: Kernel,
    sender: int,
    receiver: int,
    yt: Tcb,
    ep: Option<usize>,
    badge: u64,
    grant: bool,
) -> bool {
    let xt = a.tcbs@[receiver];
    if a.tcbs@[sender].fault is NullFault {
        let caps = offered_caps(a, sender, grant);
        let n = transferred_len(a, sender, receiver);
        let active = caps_transfer_active(caps, xt.has_buffer);
        let free = active && xt.receive_slot == ReceiveSlot::Free;
        &&& yt.arch.mrs@ == Seq::new(
            xt.arch.mrs@.len(),
            |j: int|
                if 0 <= j < n {
                    a.tcbs@[sender].arch.mrs@[j]
                } else {
                    xt.arch.mrs@[j]
                },
        )
        &&& yt.arch.reg_msg_info == (MsgInfo {
            label: a.tcbs@[sender].arch.reg_msg_info.label,
            caps_unwrapped: if active {
                caps_unwrap_mask(caps, ep, free, 0)
            } else {
                0
            },
            extra_caps: if active {
                caps_transfer_end(caps, ep, free, 0) as usize
            } else {
                0
            },
            length: n as usize,
        })
        &&& yt.arch.reg_badge == badge
        &&& yt.caps_or_badges@ == (if active {
            caps_badge_writes(caps, ep, free, 0, xt.caps_or_badges@)
        } else {
            xt.caps_or_badges@
        })
        &&& yt.receive_slot == (if active {
            match caps_installed(caps, ep, free, 0) {
                Some(c) => ReceiveSlot::Full(c),
                None => xt.receive_slot,
            }
        } else {
            xt.receive_slot
        })
    } else {
        let payload = fault_payload(a, sender);
        &&& yt.arch.mrs@ == write_mrs_spec(xt.arch.mrs@, xt.has_buffer, 0, payload)
        &&& yt.arch.reg_msg_info == (MsgInfo {
            label: fault_label(a.tcbs@[sender].fault),
            caps_unwrapped: 0,
            extra_caps: 0,
            length: write_mrs_next(xt.has_buffer, 0, payload.len() as int) as usize,
        })
        &&& yt.arch.reg_badge == badge
        &&& yt.caps_or_badges@ == xt.caps_or_badges@
        &&& yt.receive_slot == xt.receive_slot
    }
}

/// What a transfer does to the scheduling-context table: nothing, unless
/// a timeout fault consumes the sender's scheduling-context time.
pub open spec fn transfer_scs_rel(a: Kernel, b: Kernel, sender: int) -> bool {
    if a.tcbs@[sender].fault is Timeout && a.tcbs@[sender].sched_context is Some {
        let s = a.tcbs@[sender].sched_context->0;
        scs_same_except(a, b, s as int) && b.scs@[s as int] == (SchedContext {
            consumed: 0,
            ..a.scs@[s as int]
        })
    } else {
        same_scs(a, b)
    }
}

/// The fields of a thread the transfer engine never touches.
pub open spec fn tcb_static_eq(x: Tcb, y: Tcb) -> bool {
    &&& y.fault == x.fault
    &&& y.lookup_failure == x.lookup_failure
    &&& y.has_buffer == x.has_buffer
    &&& y.lookup_extra_ok == x.lookup_extra_ok
    &&& y.extra_caps@ == x.extra_caps@
    &&& y.bound_notification == x.bound_notification
    &&& y.sched_context == x.sched_context
    &&& y.timeout_handler_valid == x.timeout_handler_valid
    &&& y.arch.regs@ == x.arch.regs@
}


/// The whole effect of consuming a pending signal on a thread's bound
/// notification: badge delivered, notification idle, and possibly a
/// scheduling-context donation with a sporadic refill check.
pub open spec fn signal_consumed_rel(a: Kernel, b: Kernel, t: int) -> bool {
    let n = a.tcbs@[t].bound_notification->0;
    let nf = a.notifications@[n as int];
    let donating = a.tcbs@[t].sched_context is None && nf.sched_context is Some
        && a.scs@[nf.sched_context->0 as int].tcb is None;
    let sc_after = if donating {
        nf.sched_context
    } else {
        a.tcbs@[t].sched_context
    };
    let refill = sc_after is Some && a.scs@[sc_after->0 as int].sporadic && sc_after
        == nf.sched_context && a.cur_sc != sc_after;
    &&& ntfns_same_except(a, b, n as int)
    &&& b.notifications@[n as int] == (Notification { state: NtfnState::Idle, ..nf })
    &&& tcbs_same_except(a, b, t)
    &&& b.tcbs@[t] == (Tcb {
        arch: ArchTcb { reg_badge: nf.badge, ..a.tcbs@[t].arch },
        sched_context: sc_after,
        ..a.tcbs@[t]
    })
    &&& (donating ==> scs_same_except(a, b, sc_after->0 as int) && b.scs@[sc_after->0 as int]
        == (SchedContext {
        tcb: Some(t as usize),
        refill_ready: (refill || a.scs@[sc_after->0 as int].refill_ready),
        ..a.scs@[sc_after->0 as int]
    }))
    &&& (!donating && refill ==> scs_same_except(a, b, sc_after->0 as int) && b.scs@[sc_after->0 as int]
        == (SchedContext {
        refill_ready: true,
        ..a.scs@[sc_after->0 as int]
    }))
    &&& (!donating && !refill ==> same_scs(a, b))
    &&& same_eps(a, b)
    &&& same_replies(a, b)
}


/// Once the receive slot is spent, the transfer loop installs nothing.
pub proof fn lemma_caps_installed_not_free(caps: Seq<Cap>, ep: Option<usize>, i: int)
    ensures
        caps_installed(caps, ep, false, i) is None,
    decreases caps.len() - i,
{
    if 0 <= i < caps.len() && !(caps[i] is Null) && cap_unwrappable(caps[i], ep) {
        lemma_caps_installed_not_free(caps, ep, i + 1);
    }
}

/// The extra capabilities a sender offers: what its lookup yields when
/// the transfer may grant, nothing otherwise.
pub open spec fn offered_caps(a: Kernel, sender: int, can_grant: bool) -> Seq<Cap> {
    if can_grant && a.tcbs@[sender].lookup_extra_ok {
        a.tcbs@[sender].extra_caps@
    } else {
        Seq::empty()
    }
}

/// Whether the extra-capability transfer writes anything at all: it asks
/// for a first non-null entry and a mapped buffer on the receiver.
pub open spec fn caps_transfer_active(caps: Seq<Cap>, receiver_has_buffer: bool) -> bool {
    caps.len() > 0 && !(caps[0] is Null) && receiver_has_buffer
}

/// How many message words a normal transfer moves.
pub open spec fn transferred_len(a: Kernel, sender: int, receiver: int) -> int {
    let want = a.tcbs@[sender].arch.reg_msg_info.length as int;
    let limit = if a.tcbs@[sender].has_buffer && a.tcbs@[receiver].has_buffer {
        MSG_MAX_LENGTH as int
    } else {
        N_MSG_REGISTERS as int
    };
    if want < limit {
        want
    } else {
        limit
    }
}

/// The whole effect of a normal transfer on the receiver: message words
/// copied up to the limit, extra capabilities unwrapped or installed,
/// and the message-information and badge registers written.
pub open spec fn normal_transfer_rel(
    a: Kernel,
    b: Kernel,
    sender: int,
    receiver: int,
    ep: Option<usize>,
    badge: u64,
    can_grant: bool,
) -> bool {
    let caps = offered_caps(a, sender, can_grant);
    let n = transferred_len(a, sender, receiver);
    let active = caps_transfer_active(caps, a.tcbs@[receiver].has_buffer);
    let free = active && a.tcbs@[receiver].receive_slot == ReceiveSlot::Free;
    let src = a.tcbs@[receiver];
    &&& tcbs_same_except(a, b, receiver)
    &&& b.tcbs@[receiver] == (Tcb {
        arch: ArchTcb {
            mrs: b.tcbs@[receiver].arch.mrs,
            reg_msg_info: MsgInfo {
                label: a.tcbs@[sender].arch.reg_msg_info.label,
                caps_unwrapped: if active {
                    caps_unwrap_mask(caps, ep, free, 0)
                } else {
                    0
                },
                extra_caps: if active {
                    caps_transfer_end(caps, ep, free, 0) as usize
                } else {
                    0
                },
                length: n as usize,
            },
            reg_badge: badge,
            ..src.arch
        },
        caps_or_badges: b.tcbs@[receiver].caps_or_badges,
        receive_slot: if active {
            match caps_installed(caps, ep, free, 0) {
                Some(c) => ReceiveSlot::Full(c),
                None => src.receive_slot,
            }
        } else {
            src.receive_slot
        },
        ..src
    })
    &&& b.tcbs@[receiver].arch.mrs@ == Seq::new(
        src.arch.mrs@.len(),
        |j: int|
            if 0 <= j < n {
                a.tcbs@[sender].arch.mrs@[j]
            } else {
                src.arch.mrs@[j]
            },
    )
    &&& b.tcbs@[receiver].caps_or_badges@ == (if active {
        caps_badge_writes(caps, ep, free, 0, src.caps_or_badges@)
    } else {
        src.caps_or_badges@
    })
    &&& same_eps(a, b)
    &&& same_ntfns(a, b)
    &&& same_replies(a, b)
    &&& same_scs(a, b)
    &&& same_sched(a, b)
}

/// The whole effect of a fault transfer on the receiver: the sender's
/// fault marshalled into its message words, the fault label and length
/// in the message-information register, and the badge written. A timeout
/// fault also consumes the sender's scheduling-context time.
pub open spec fn fault_transfer_rel(a: Kernel, b: Kernel, sender: int, receiver: int, badge: u64) -> bool {
    let payload = fault_payload(a, sender);
    let src = a.tcbs@[receiver];
    let consumes = a.tcbs@[sender].fault is Timeout && a.tcbs@[sender].sched_context is Some;
    let s = a.tcbs@[sender].sched_context->0;
    &&& tcbs_same_except(a, b, receiver)
    &&& b.tcbs@[receiver] == (Tcb {
        arch: ArchTcb {
            mrs: b.tcbs@[receiver].arch.mrs,
            reg_msg_info: MsgInfo {
                label: fault_label(a.tcbs@[sender].fault),
                caps_unwrapped: 0,
                extra_caps: 0,
                length: write_mrs_next(src.has_buffer, 0, payload.len() as int) as usize,
            },
            reg_badge: badge,
            ..src.arch
        },
        ..src
    })
    &&& b.tcbs@[receiver].arch.mrs@ == write_mrs_spec(src.arch.mrs@, src.has_buffer, 0, payload)
    &&& same_eps(a, b)
    &&& same_ntfns(a, b)
    &&& same_replies(a, b)
    &&& (consumes ==> scs_same_except(a, b, s as int) && b.scs@[s as int] == (SchedContext {
        consumed: 0,
        ..a.scs@[s as int]
    }))
    &&& (!consumes ==> same_scs(a, b))
    &&& same_sched(a, b)
}


/// The whole effect of cancelling a thread's pending IPC, by the state
/// it was blocked in.
pub open spec fn cancel_ipc_rel(a: Kernel, b: Kernel, t: int) -> bool {
    &&& b.wf()
    &&& same_cur(a, b)
    &&& b.ready_queue@ == a.ready_queue@
    &&& b.release_queue@ == a.release_queue@
    &&& b.switch_candidate == a.switch_candidate
    &&& b.timeout_event == a.timeout_event
    &&& b.tcbs@.len() == a.tcbs@.len()
    &&& ({
                let tcb = a.tcbs@[t];
                let ts = tcb.state.ts_type;
                if ts == ThreadState::BlockedOnSend || ts == ThreadState::BlockedOnReceive {
                    let e = tcb.state.blocking_object->0;
                    &&& tcbs_same_except(a, b, t)
                    &&& b.tcbs@[t] == (Tcb {
                        state: ThreadStateRecord {
                            ts_type: ThreadState::Inactive,
                            reply_object: None,
                            ..tcb.state
                        },
                        ..tcb
                    })
                    &&& eps_same_except(a, b, e as int)
                    &&& b.endpoints@[e as int].queue@ == a.ep_queue(
                        e as int,
                    ).remove(a.ep_queue(e as int).index_of(t as usize))
                    &&& !b.ep_queue(e as int).contains(t as usize)
                    &&& b.endpoints@[e as int].state == (if a.ep_queue(
                        e as int,
                    ).len() == 1 {
                        EPState::Idle
                    } else {
                        a.endpoints@[e as int].state
                    })
                    &&& same_ntfns(a, b)
                    &&& (tcb.state.reply_object matches Some(r) ==> replies_same_except(
                        a,
                        b,
                        r as int,
                    ) && b.replies@[r as int] == (crate::types::Reply {
                        tcb: None,
                        ..a.replies@[r as int]
                    }))
                    &&& (tcb.state.reply_object is None ==> same_replies(a, b))
                    &&& same_scs(a, b)
                    &&& b.resched == (a.resched || a.cur_thread == Some(t as usize))
                } else if ts == ThreadState::BlockedOnNotification {
                    let n = tcb.state.blocking_object->0;
                    &&& tcbs_same_except(a, b, t)
                    &&& b.tcbs@[t] == (Tcb {
                        state: ThreadStateRecord { ts_type: ThreadState::Inactive, ..tcb.state },
                        ..tcb
                    })
                    &&& ntfns_same_except(a, b, n as int)
                    &&& b.notifications@[n as int].queue@ == a.ntfn_queue(
                        n as int,
                    ).remove(a.ntfn_queue(n as int).index_of(t as usize))
                    &&& !b.ntfn_queue(n as int).contains(t as usize)
                    &&& b.notifications@[n as int].state == (if a.ntfn_queue(
                        n as int,
                    ).len() == 1 {
                        NtfnState::Idle
                    } else {
                        a.notifications@[n as int].state
                    })
                    &&& same_eps(a, b)
                    &&& same_replies(a, b)
                    &&& same_scs(a, b)
                    &&& b.resched == (a.resched || a.cur_thread == Some(t as usize))
                } else if ts == ThreadState::BlockedOnReply {
                    &&& same_eps(a, b)
                    &&& same_ntfns(a, b)
                    &&& same_scs(a, b)
                    &&& (tcb.state.reply_object matches Some(r) ==> {
                        &&& tcbs_same_except(a, b, t)
                        &&& b.tcbs@[t] == (Tcb {
                            state: ThreadStateRecord {
                                ts_type: ThreadState::Inactive,
                                reply_object: None,
                                ..tcb.state
                            },
                            ..tcb
                        })
                        &&& replies_same_except(a, b, r as int)
                        &&& b.replies@[r as int] == (crate::types::Reply {
                            tcb: None,
                            sched_context: None,
                        })
                        &&& b.resched == (a.resched || a.cur_thread == Some(t as usize))
                    })
                    &&& (tcb.state.reply_object is None ==> {
                        &&& same_replies(a, b)
                        &&& b.tcbs@[t] == (Tcb {
                            fault: Fault::NullFault,
                            caller_slot_in: None,
                            ..tcb
                        })
                        &&& (tcb.caller_slot_in matches Some(h) ==> tcbs_same_except2(
                            a,
                            b,
                            t as int,
                            h as int,
                        ) && (h as int != t ==> b.tcbs@[h as int] == (Tcb {
                            caller_slot: None,
                            ..a.tcbs@[h as int]
                        })))
                        &&& (tcb.caller_slot_in is None ==> tcbs_same_except(
                            a,
                            b,
                            t as int,
                        ))
                        &&& b.resched == a.resched
                    })
                } else {
                    &&& same_tcbs(a, b)
                    &&& same_eps(a, b)
                    &&& same_ntfns(a, b)
                    &&& same_replies(a, b)
                    &&& same_scs(a, b)
                    &&& b.resched == a.resched
                }
            })
}

impl Kernel {
    /// Central cleanup when a thread is restarted or destroyed: leave
    /// whatever queue the thread waits on, or tear down its reply or
    /// caller capability when it awaits a reply. The endpoint it leaves
    /// is never idle while the thread is queued on it.
    pub fn cancel_ipc(&mut self, t: usize)
        requires
            old(self).wf(),
            old(self).valid_tcb(t as int),
        ensures
            final(self).wf(),
            same_cur(*old(self), *final(self)),
            final(self).ready_queue@ == old(self).ready_queue@,
            final(self).release_queue@ == old(self).release_queue@,
            final(self).switch_candidate == old(self).switch_candidate,
            final(self).timeout_event == old(self).timeout_event,
            final(self).tcbs@.len() == old(self).tcbs@.len(),
            cancel_ipc_rel(*old(self), *final(self), t as int),
    {
        proof {
            assert(old(self).tcb_ok(t as int));
        }
        let ts = self.tcbs[t].state.ts_type;
        match ts {
            ThreadState::BlockedOnSend | ThreadState::BlockedOnReceive => {
                match self.tcbs[t].state.blocking_object {
                    Some(e) => {
                        proof {
                            assert(old(self).ep_ok(e as int));
                            assert(old(self).ep_queue(e as int).contains(t));
                            assert(old(self).endpoints@[e as int].state != EPState::Idle);
                        }
                        self.ep_cancel_ipc(e, t);
                    },
                    None => {
                        proof {
                            assert(false);
                        }
                    },
                }
            },
            ThreadState::BlockedOnNotification => {
                match self.tcbs[t].state.blocking_object {
                    Some(n) => {
                        self.cancel_signal(n, t);
                    },
                    None => {
                        proof {
                            assert(false);
                        }
                    },
                }
            },
            ThreadState::BlockedOnReply => {
                let has_reply = match self.tcbs[t].state.reply_object {
                    Some(_) => true,
                    None => false,
                };
                if has_reply {
                    let ghost r = old(self).tcbs@[t as int].state.reply_object->0;
                    self.reply_remove_tcb(t);
                    proof {
                        crate::kernel::lemma_wf_after_reply_drop(
                            *old(self),
                            *self,
                            t as int,
                            r as int,
                        );
                    }
                } else {
                    self.tcbs[t].fault = Fault::NullFault;
                    let slot_in = self.tcbs[t].caller_slot_in;
                    match slot_in {
                        Some(h) => {
                            proof {
                                assert(old(self).tcb_ok(t as int));
                            }
                            self.delete_caller_cap(h);
                            self.tcbs[t].caller_slot_in = None;
                        },
                        None => {},
                    }
                    proof {
                        crate::kernel::lemma_wf_after_caller_cap_drop(*old(self), *self, t as int);
                    }
                }
            },
            _ => {},
        }
    }

    /// Write one message word of a thread: into a message register, or
    /// into its IPC buffer when it has one; the result is the next free
    /// position, or the register count when the word did not fit.
    pub fn set_mr(&mut self, t: usize, offset: usize, v: u64) -> (next: usize)
        requires
            old(self).wf(),
            old(self).valid_tcb(t as int),
        ensures
            final(self).wf(),
            tcbs_same_except(*old(self), *final(self), t as int),
            final(self).tcbs@[t as int] == (Tcb {
                arch: ArchTcb {
                    mrs: final(self).tcbs@[t as int].arch.mrs,
                    ..old(self).tcbs@[t as int].arch
                },
                ..old(self).tcbs@[t as int]
            }),
            final(self).tcbs@[t as int].arch.mrs@ == write_mrs_spec(
                old(self).tcbs@[t as int].arch.mrs@,
                old(self).tcbs@[t as int].has_buffer,
                offset as int,
                seq![v],
            ),
            next as int == write_mrs_next(
                old(self).tcbs@[t as int].has_buffer,
                offset as int,
                1,
            ),
            same_eps(*old(self), *final(self)),
            same_ntfns(*old(self), *final(self)),
            same_replies(*old(self), *final(self)),
            same_scs(*old(self), *final(self)),
            same_sched(*old(self), *final(self)),
    {
        proof {
            assert(old(self).tcb_ok(t as int));
        }
        let has_buffer = self.tcbs[t].has_buffer;
        let writable = offset < N_MSG_REGISTERS || (has_buffer && offset < MSG_MAX_LENGTH);
        let next = if writable {
            self.tcbs[t].arch.mrs.set(offset, v);
            offset + 1
        } else {
            N_MSG_REGISTERS
        };
        proof {
            assert(self.tcbs@[t as int].arch.mrs@ =~= write_mrs_spec(
                old(self).tcbs@[t as int].arch.mrs@,
                has_buffer,
                offset as int,
                seq![v],
            ));
            crate::kernel::lemma_wf_preserved_links(*old(self), *self);
        }
        next
    }

    /// Write a run of message words of a thread starting at `offset`;
    /// the result is what the last write reported.
    fn write_msg_words(&mut self, t: usize, offset: usize, vals: &Vec<u64>) -> (next: usize)
        requires
            old(self).wf(),
            old(self).valid_tcb(t as int),
            offset <= MSG_MAX_LENGTH,
            0 < vals@.len() <= MSG_MAX_LENGTH,
        ensures
            final(self).wf(),
            tcbs_same_except(*old(self), *final(self), t as int),
            final(self).tcbs@[t as int] == (Tcb {
                arch: ArchTcb {
                    mrs: final(self).tcbs@[t as int].arch.mrs,
                    ..old(self).tcbs@[t as int].arch
                },
                ..old(self).tcbs@[t as int]
            }),
            final(self).tcbs@[t as int].arch.mrs@ == write_mrs_spec(
                old(self).tcbs@[t as int].arch.mrs@,
                old(self).tcbs@[t as int].has_buffer,
                offset as int,
                vals@,
            ),
            next as int == write_mrs_next(
                old(self).tcbs@[t as int].has_buffer,
                offset as int,
                vals@.len() as int,
            ),
            same_eps(*old(self), *final(self)),
            same_ntfns(*old(self), *final(self)),
            same_replies(*old(self), *final(self)),
            same_scs(*old(self), *final(self)),
            same_sched(*old(self), *final(self)),
    {
        proof {
            assert(old(self).tcb_ok(t as int));
        }
        let ghost a = *old(self);
        let has_buffer = self.tcbs[t].has_buffer;
        let mut i: usize = 0;
        let mut next: usize = N_MSG_REGISTERS;
        while i < vals.len()
            invariant
                a.wf(),
                a.valid_tcb(t as int),
                *old(self) == a,
                offset <= MSG_MAX_LENGTH,
                0 < vals@.len() <= MSG_MAX_LENGTH,
                i <= vals@.len(),
                has_buffer == a.tcbs@[t as int].has_buffer,
                tcbs_same_except(a, *self, t as int),
                self.tcbs@[t as int] == (Tcb {
                    arch: ArchTcb {
                        mrs: self.tcbs@[t as int].arch.mrs,
                        ..a.tcbs@[t as int].arch
                    },
                    ..a.tcbs@[t as int]
                }),
                self.tcbs@[t as int].arch.mrs@ == write_mrs_spec(
                    a.tcbs@[t as int].arch.mrs@,
                    has_buffer,
                    offset as int,
                    vals@.subrange(0, i as int),
                ),
                i > 0 ==> next as int == write_mrs_next(has_buffer, offset as int, i as int),
                same_eps(a, *self),
                same_ntfns(a, *self),
                same_replies(a, *self),
                same_scs(a, *self),
                same_sched(a, *self),
            decreases vals@.len() - i,
        {
            let pos = offset + i;
            let writable = pos < N_MSG_REGISTERS || (has_buffer && pos < MSG_MAX_LENGTH);
            if writable {
                proof {
                    assert(a.tcb_ok(t as int));
                }
                self.tcbs[t].arch.mrs.set(pos, vals[i]);
                next = pos + 1;
            } else {
                next = N_MSG_REGISTERS;
            }
            i = i + 1;
            proof {
                assert(self.tcbs@[t as int].arch.mrs@ =~= write_mrs_spec(
                    a.tcbs@[t as int].arch.mrs@,
                    has_buffer,
                    offset as int,
                    vals@.subrange(0, i as int),
                ));
            }
        }
        proof {
            assert(vals@.subrange(0, vals@.len() as int) == vals@);
            crate::kernel::lemma_wf_preserved_links(a, *self);
        }
        next
    }

    /// The register index the `i`-th word of a fault message uses.
    pub fn fault_message_register(id: FaultMessageId, i: usize) -> (r: usize)
        requires
            i < N_SYSCALL_MESSAGE,
        ensures
            r as int == fault_message_register_spec(id, i as int),
            r < N_CONTEXT_REGISTERS,
    {
        match id {
            FaultMessageId::Syscall => {
                if i < 8 {
                    REG_A0 + i
                } else if i == 8 {
                    REG_FAULT_IP
                } else {
                    REG_SP
                }
            },
            FaultMessageId::Exception => i,
            FaultMessageId::TimeoutReply => i,
        }
    }

    /// Copy message words from a sender to a receiver, as many as asked
    /// for and the pair's buffers allow; the result is the count copied.
    pub fn copy_mrs(&mut self, sender: usize, receiver: usize, n: usize) -> (count: usize)
        requires
            old(self).wf(),
            old(self).valid_tcb(sender as int),
            old(self).valid_tcb(receiver as int),
            sender != receiver,
        ensures
            final(self).wf(),
            count as int == ({
                let limit = if old(self).tcbs@[sender as int].has_buffer && old(
                    self,
                ).tcbs@[receiver as int].has_buffer {
                    MSG_MAX_LENGTH as int
                } else {
                    N_MSG_REGISTERS as int
                };
                if (n as int) < limit {
                    n as int
                } else {
                    limit
                }
            }),
            tcbs_same_except(*old(self), *final(self), receiver as int),
            final(self).tcbs@[receiver as int] == (Tcb {
                arch: ArchTcb {
                    mrs: final(self).tcbs@[receiver as int].arch.mrs,
                    ..old(self).tcbs@[receiver as int].arch
                },
                ..old(self).tcbs@[receiver as int]
            }),
            final(self).tcbs@[receiver as int].arch.mrs@ == Seq::new(
                old(self).tcbs@[receiver as int].arch.mrs@.len(),
                |j: int|
                    if 0 <= j < count as int {
                        old(self).tcbs@[sender as int].arch.mrs@[j]
                    } else {
                        old(self).tcbs@[receiver as int].arch.mrs@[j]
                    },
            ),
            same_eps(*old(self), *final(self)),
            same_ntfns(*old(self), *final(self)),
            same_replies(*old(self), *final(self)),
            same_scs(*old(self), *final(self)),
            same_sched(*old(self), *final(self)),
    {
        proof {
            assert(old(self).tcb_ok(sender as int));
            assert(old(self).tcb_ok(receiver as int));
        }
        let ghost a = *old(self);
        let limit = if self.tcbs[sender].has_buffer && self.tcbs[receiver].has_buffer {
            MSG_MAX_LENGTH
        } else {
            N_MSG_REGISTERS
        };
        let count = if n < limit {
            n
        } else {
            limit
        };
        let mut i: usize = 0;
        while i < count
            invariant
                a.wf(),
                a.valid_tcb(sender as int),
                a.valid_tcb(receiver as int),
                sender != receiver,
                *old(self) == a,
                count <= MSG_MAX_LENGTH,
                i <= count,
                tcbs_same_except(a, *self, receiver as int),
                self.tcbs@[sender as int] == a.tcbs@[sender as int],
                self.tcbs@[receiver as int] == (Tcb {
                    arch: ArchTcb {
                        mrs: self.tcbs@[receiver as int].arch.mrs,
                        ..a.tcbs@[receiver as int].arch
                    },
                    ..a.tcbs@[receiver as int]
                }),
                self.tcbs@[receiver as int].arch.mrs@ == Seq::new(
                    a.tcbs@[receiver as int].arch.mrs@.len(),
                    |j: int|
                        if 0 <= j < i as int {
                            a.tcbs@[sender as int].arch.mrs@[j]
                        } else {
                            a.tcbs@[receiver as int].arch.mrs@[j]
                        },
                ),
                same_eps(a, *self),
                same_ntfns(a, *self),
                same_replies(a, *self),
                same_scs(a, *self),
                same_sched(a, *self),
            decreases count - i,
        {
            proof {
                assert(a.tcb_ok(sender as int));
                assert(a.tcb_ok(receiver as int));
            }
            let v = self.tcbs[sender].arch.mrs[i];
            self.tcbs[receiver].arch.mrs.set(i, v);
            i = i + 1;
            proof {
                assert(self.tcbs@[receiver as int].arch.mrs@ =~= Seq::new(
                    a.tcbs@[receiver as int].arch.mrs@.len(),
                    |j: int|
                        if 0 <= j < i as int {
                            a.tcbs@[sender as int].arch.mrs@[j]
                        } else {
                            a.tcbs@[receiver as int].arch.mrs@[j]
                        },
                ));
            }
        }
        proof {
            crate::kernel::lemma_wf_preserved_links(a, *self);
        }
        count
    }

    /// Marshal the sender's fault into the receiver's message words and
    /// write the fault label, length and badge; a timeout fault also
    /// consumes the sender's scheduling-context time.
    pub fn do_fault_transfer(&mut self, sender: usize, receiver: usize, badge: u64)
        requires
            old(self).wf(),
            old(self).valid_tcb(sender as int),
            old(self).valid_tcb(receiver as int),
            sender != receiver,
            old(self).tcbs@[sender as int].fault != Fault::NullFault,
        ensures
            final(self).wf(),
            fault_transfer_rel(*old(self), *final(self), sender as int, receiver as int, badge),
    {
        proof {
            assert(old(self).tcb_ok(sender as int));
            assert(old(self).tcb_ok(receiver as int));
        }
        let ghost a = *old(self);
        let mut payload: Vec<u64> = Vec::new();
        let fault = self.tcbs[sender].fault;
        match fault {
            Fault::NullFault => {
                proof {
                    assert(false);
                }
            },
            Fault::CapFault { address, in_receive_phase } => {
                payload.push(self.tcbs[sender].arch.regs[REG_FAULT_IP]);
                payload.push(address);
                payload.push(if in_receive_phase { 1 } else { 0 });
                let luf = self.tcbs[sender].lookup_failure;
                match luf {
                    LookupFault::InvalidRoot => {
                        payload.push(LOOKUP_INVALID_ROOT);
                    },
                    LookupFault::MissingCapability { bits_left } => {
                        payload.push(LOOKUP_MISSING_CAPABILITY);
                        payload.push(bits_left);
                    },
                    LookupFault::DepthMismatch { bits_left, bits_found } => {
                        payload.push(LOOKUP_DEPTH_MISMATCH);
                        payload.push(bits_left);
                        payload.push(bits_found);
                    },
                    LookupFault::GuardMismatch { bits_left, guard_found, bits_found } => {
                        payload.push(LOOKUP_GUARD_MISMATCH);
                        payload.push(bits_left);
                        payload.push(guard_found);
                        payload.push(bits_found);
                    },
                }
                proof {
                    assert(payload@ =~= fault_payload(a, sender as int));
                }
            },
            Fault::UnknownSyscall { syscall_number } => {
                let mut i: usize = 0;
                while i < N_SYSCALL_MESSAGE
                    invariant
                        a.wf(),
                        a.valid_tcb(sender as int),
                        *self == a,
                        i <= N_SYSCALL_MESSAGE,
                        payload@ == Seq::new(
                            i as nat,
                            |k: int| a.tcbs@[sender as int].arch.regs@[fault_message_register_spec(
                                FaultMessageId::Syscall,
                                k,
                            )],
                        ),
                    decreases N_SYSCALL_MESSAGE - i,
                {
                    proof {
                        assert(a.tcb_ok(sender as int));
                    }
                    let r = Self::fault_message_register(FaultMessageId::Syscall, i);
                    payload.push(self.tcbs[sender].arch.regs[r]);
                    i = i + 1;
                    proof {
                        assert(payload@ =~= Seq::new(
                            i as nat,
                            |k: int| a.tcbs@[sender as int].arch.regs@[fault_message_register_spec(
                                FaultMessageId::Syscall,
                                k,
                            )],
                        ));
                    }
                }
                payload.push(syscall_number);
                proof {
                    assert(payload@ =~= fault_payload(a, sender as int));
                }
            },
            Fault::UserException { number, code } => {
                let r0 = Self::fault_message_register(FaultMessageId::Exception, 0);
                payload.push(self.tcbs[sender].arch.regs[r0]);
                let r1 = Self::fault_message_register(FaultMessageId::Exception, 1);
                payload.push(self.tcbs[sender].arch.regs[r1]);
                payload.push(number);
                payload.push(code);
                proof {
                    assert(payload@ =~= fault_payload(a, sender as int));
                }
            },
            Fault::VMFault { address, fsr, instruction_fault } => {
                payload.push(self.tcbs[sender].arch.regs[REG_FAULT_IP]);
                payload.push(address);
                payload.push(if instruction_fault { 1 } else { 0 });
                payload.push(fsr);
                proof {
                    assert(payload@ =~= fault_payload(a, sender as int));
                }
            },
            Fault::Timeout { badge: tbadge } => {
                payload.push(tbadge);
                match self.tcbs[sender].sched_context {
                    Some(s) => {
                        let consumed = self.scs[s].consumed;
                        self.scs[s].consumed = 0;
                        payload.push(consumed);
                    },
                    None => {},
                }
                proof {
                    assert(payload@ =~= fault_payload(a, sender as int));
                    crate::kernel::lemma_wf_preserved_links(a, *self);
                }
            },
        }
        let ghost k1 = *self;
        let sent = self.write_msg_words(receiver, 0, &payload);
        let label = match fault {
            Fault::NullFault => 0,
            Fault::CapFault { .. } => FAULT_LABEL_CAP_FAULT,
            Fault::UnknownSyscall { .. } => FAULT_LABEL_UNKNOWN_SYSCALL,
            Fault::UserException { .. } => FAULT_LABEL_USER_EXCEPTION,
            Fault::VMFault { .. } => FAULT_LABEL_VM_FAULT,
            Fault::Timeout { .. } => FAULT_LABEL_TIMEOUT,
        };
        self.tcbs[receiver].arch.reg_msg_info = MsgInfo {
            label,
            caps_unwrapped: 0,
            extra_caps: 0,
            length: sent,
        };
        self.tcbs[receiver].arch.reg_badge = badge;
        proof {
            crate::kernel::lemma_wf_preserved_links(k1, *self);
        }
    }

    /// Transfer the extra capabilities into the receiver, writing into
    /// the buffer the caller supplies for it: the receiver's own
    /// endpoint capabilities are unwrapped to their badges, one other
    /// derivable capability may land in the receive slot, and the loop
    /// stops early when neither works.
    pub fn set_transfer_caps_with_buf(
        &mut self,
        receiver: usize,
        ep: Option<usize>,
        info: &mut MsgInfo,
        current_extra_caps: &Vec<Cap>,
        use_buffer: bool,
    )
        requires
            old(self).wf(),
            old(self).valid_tcb(receiver as int),
            current_extra_caps@.len() <= MAX_EXTRA_CAPS,
        ensures
            final(self).wf(),
            ({
                let caps = current_extra_caps@;
                let active = caps_transfer_active(caps, use_buffer);
                let free = active && old(self).tcbs@[receiver as int].receive_slot
                    == ReceiveSlot::Free;
                &&& final(info).label == old(info).label
                &&& final(info).length == old(info).length
                &&& final(info).caps_unwrapped == (if active {
                    caps_unwrap_mask(caps, ep, free, 0)
                } else {
                    0
                })
                &&& final(info).extra_caps as int == (if active {
                    caps_transfer_end(caps, ep, free, 0)
                } else {
                    0
                })
                &&& tcbs_same_except(*old(self), *final(self), receiver as int)
                &&& final(self).tcbs@[receiver as int] == (Tcb {
                    caps_or_badges: final(self).tcbs@[receiver as int].caps_or_badges,
                    receive_slot: if active {
                        match caps_installed(caps, ep, free, 0) {
                            Some(c) => ReceiveSlot::Full(c),
                            None => old(self).tcbs@[receiver as int].receive_slot,
                        }
                    } else {
                        old(self).tcbs@[receiver as int].receive_slot
                    },
                    ..old(self).tcbs@[receiver as int]
                })
                &&& final(self).tcbs@[receiver as int].caps_or_badges@ == (if active {
                    caps_badge_writes(
                        caps,
                        ep,
                        free,
                        0,
                        old(self).tcbs@[receiver as int].caps_or_badges@,
                    )
                } else {
                    old(self).tcbs@[receiver as int].caps_or_badges@
                })
                &&& final(self).tcbs@[receiver as int].caps_or_badges@.len() == old(
                    self,
                ).tcbs@[receiver as int].caps_or_badges@.len()
                &&& same_eps(*old(self), *final(self))
                &&& same_ntfns(*old(self), *final(self))
                &&& same_replies(*old(self), *final(self))
                &&& same_scs(*old(self), *final(self))
                &&& same_sched(*old(self), *final(self))
            }),
    {
        proof {
            assert(old(self).tcb_ok(receiver as int));
        }
        let ghost a = *old(self);
        info.extra_caps = 0;
        info.caps_unwrapped = 0;
        let no_first = current_extra_caps.len() == 0 || match current_extra_caps[0] {
            Cap::Null => true,
            _ => false,
        };
        if no_first || !use_buffer {
            return ;
        }
        let ghost caps = current_extra_caps@;
        let mut dest_free = match self.tcbs[receiver].receive_slot {
            ReceiveSlot::Free => true,
            _ => false,
        };
        let ghost free0 = dest_free;
        proof {
            let m = caps_unwrap_mask(caps, ep, free0, 0);
            assert(0u64 | m == m) by (bit_vector);
        }
        let mut i: usize = 0;
        let mut stop = false;
        while !stop && i < current_extra_caps.len()
            invariant
                a.wf(),
                a.valid_tcb(receiver as int),
                *old(self) == a,
                caps == current_extra_caps@,
                caps.len() <= MAX_EXTRA_CAPS,
                i <= caps.len(),
                free0 == (a.tcbs@[receiver as int].receive_slot == ReceiveSlot::Free),
                tcbs_same_except(a, *self, receiver as int),
                self.tcbs@[receiver as int] == (Tcb {
                    caps_or_badges: self.tcbs@[receiver as int].caps_or_badges,
                    receive_slot: self.tcbs@[receiver as int].receive_slot,
                    ..a.tcbs@[receiver as int]
                }),
                self.tcbs@[receiver as int].caps_or_badges@.len()
                    == a.tcbs@[receiver as int].caps_or_badges@.len(),
                caps_transfer_end(caps, ep, free0, 0) == (if stop {
                    i as int
                } else {
                    caps_transfer_end(caps, ep, dest_free, i as int)
                }),
                caps_unwrap_mask(caps, ep, free0, 0) == (if stop {
                    info.caps_unwrapped
                } else {
                    info.caps_unwrapped | caps_unwrap_mask(caps, ep, dest_free, i as int)
                }),
                caps_badge_writes(caps, ep, free0, 0, a.tcbs@[receiver as int].caps_or_badges@)
                    == (if stop {
                    self.tcbs@[receiver as int].caps_or_badges@
                } else {
                    caps_badge_writes(
                        caps,
                        ep,
                        dest_free,
                        i as int,
                        self.tcbs@[receiver as int].caps_or_badges@,
                    )
                }),
                ({
                    let inst = caps_installed(caps, ep, free0, 0);
                    if stop {
                        self.tcbs@[receiver as int].receive_slot == (match inst {
                            Some(c) => ReceiveSlot::Full(c),
                            None => a.tcbs@[receiver as int].receive_slot,
                        })
                    } else if dest_free == free0 {
                        inst == caps_installed(caps, ep, dest_free, i as int)
                            && self.tcbs@[receiver as int].receive_slot
                            == a.tcbs@[receiver as int].receive_slot
                    } else {
                        (inst matches Some(c) && self.tcbs@[receiver as int].receive_slot
                            == ReceiveSlot::Full(c)) && caps_installed(
                            caps,
                            ep,
                            dest_free,
                            i as int,
                        ) is None
                    }
                }),
                info.label == old(info).label,
                info.length == old(info).length,
                same_eps(a, *self),
                same_ntfns(a, *self),
                same_replies(a, *self),
                same_scs(a, *self),
                same_sched(a, *self),
            decreases caps.len() - i, (if stop {
                0int
            } else {
                1int
            }),
        {
            let c = current_extra_caps[i];
            let is_null = match c {
                Cap::Null => true,
                _ => false,
            };
            if is_null {
                stop = true;
            } else {
                let unwrap = match (c, ep) {
                    (Cap::EndpointCap { ep: ce, badge: _ }, Some(e)) => ce == e,
                    _ => false,
                };
                if unwrap {
                    let b = match c {
                        Cap::EndpointCap { ep: _, badge } => badge,
                        _ => 0,
                    };
                    proof {
                        assert(a.tcb_ok(receiver as int));
                    }
                    let ghost info_before = info.caps_unwrapped;
                    self.tcbs[receiver].caps_or_badges.set(i, b);
                    info.caps_unwrapped = info.caps_unwrapped | (1u64 << i);
                    proof {
                        let bit = 1u64 << (i as int);
                        let rest = caps_unwrap_mask(caps, ep, dest_free, i as int + 1);
                        assert(caps_unwrap_mask(caps, ep, dest_free, i as int) == rest | bit);
                        assert(info_before | (rest | bit) == (info_before | bit) | rest)
                            by (bit_vector);
                    }
                    i = i + 1;
                } else {
                    let derivable = match c {
                        Cap::Null => false,
                        Cap::EndpointCap { .. } => true,
                        Cap::Other { derive_ok, .. } => derive_ok,
                    };
                    if !dest_free || !derivable {
                        stop = true;
                    } else {
                        self.tcbs[receiver].receive_slot = ReceiveSlot::Full(c);
                        dest_free = false;
                        i = i + 1;
                    }
                }
            }
            proof {
                if stop {
                    assert(caps_unwrap_mask(caps, ep, dest_free, i as int) == 0);
                    let x = info.caps_unwrapped;
                    assert(x | 0u64 == x) by (bit_vector);
                }
                if !stop && dest_free != free0 {
                    lemma_caps_installed_not_free(caps, ep, i as int);
                }
            }
        }
        info.extra_caps = i;
        proof {
            if !stop {
                assert(i == caps.len());
                assert(caps_unwrap_mask(caps, ep, dest_free, i as int) == 0);
                let x = info.caps_unwrapped;
                assert(x | 0u64 == x) by (bit_vector);
            }
            crate::kernel::lemma_wf_preserved_links(a, *self);
        }
    }

    /// Transfer the extra capabilities into the receiver, using the
    /// receiver's own IPC buffer.
    pub fn set_transfer_caps(
        &mut self,
        receiver: usize,
        ep: Option<usize>,
        info: &mut MsgInfo,
        current_extra_caps: &Vec<Cap>,
    )
        requires
            old(self).wf(),
            old(self).valid_tcb(receiver as int),
            current_extra_caps@.len() <= MAX_EXTRA_CAPS,
        ensures
            final(self).wf(),
            ({
                let caps = current_extra_caps@;
                let active = caps_transfer_active(
                    caps,
                    old(self).tcbs@[receiver as int].has_buffer,
                );
                let free = active && old(self).tcbs@[receiver as int].receive_slot
                    == ReceiveSlot::Free;
                &&& final(info).label == old(info).label
                &&& final(info).length == old(info).length
                &&& final(info).caps_unwrapped == (if active {
                    caps_unwrap_mask(caps, ep, free, 0)
                } else {
                    0
                })
                &&& final(info).extra_caps as int == (if active {
                    caps_transfer_end(caps, ep, free, 0)
                } else {
                    0
                })
                &&& tcbs_same_except(*old(self), *final(self), receiver as int)
                &&& final(self).tcbs@[receiver as int] == (Tcb {
                    caps_or_badges: final(self).tcbs@[receiver as int].caps_or_badges,
                    receive_slot: if active {
                        match caps_installed(caps, ep, free, 0) {
                            Some(c) => ReceiveSlot::Full(c),
                            None => old(self).tcbs@[receiver as int].receive_slot,
                        }
                    } else {
                        old(self).tcbs@[receiver as int].receive_slot
                    },
                    ..old(self).tcbs@[receiver as int]
                })
                &&& final(self).tcbs@[receiver as int].caps_or_badges@ == (if active {
                    caps_badge_writes(
                        caps,
                        ep,
                        free,
                        0,
                        old(self).tcbs@[receiver as int].caps_or_badges@,
                    )
                } else {
                    old(self).tcbs@[receiver as int].caps_or_badges@
                })
                &&& final(self).tcbs@[receiver as int].caps_or_badges@.len() == old(
                    self,
                ).tcbs@[receiver as int].caps_or_badges@.len()
                &&& same_eps(*old(self), *final(self))
                &&& same_ntfns(*old(self), *final(self))
                &&& same_replies(*old(self), *final(self))
                &&& same_scs(*old(self), *final(self))
                &&& same_sched(*old(self), *final(self))
            }),
    {
        let use_buffer = self.tcbs[receiver].has_buffer;
        self.set_transfer_caps_with_buf(receiver, ep, info, current_extra_caps, use_buffer);
    }

    /// Move an ordinary message: the sender's message words up to the
    /// pair's limit, the extra capabilities when granting is allowed,
    /// and the message-information and badge registers.
    pub fn do_normal_transfer(
        &mut self,
        sender: usize,
        receiver: usize,
        ep: Option<usize>,
        badge: u64,
        can_grant: bool,
    )
        requires
            old(self).wf(),
            old(self).valid_tcb(sender as int),
            old(self).valid_tcb(receiver as int),
            sender != receiver,
        ensures
            final(self).wf(),
            normal_transfer_rel(
                *old(self),
                *final(self),
                sender as int,
                receiver as int,
                ep,
                badge,
                can_grant,
            ),
    {
        proof {
            assert(old(self).tcb_ok(sender as int));
            assert(old(self).tcb_ok(receiver as int));
        }
        let ghost a = *old(self);
        let mut tag = self.tcbs[sender].arch.reg_msg_info;
        let grant_caps = can_grant && self.tcbs[sender].lookup_extra_ok;
        let current_extra_caps: Vec<Cap> = if grant_caps {
            self.tcbs[sender].extra_caps.clone()
        } else {
            Vec::new()
        };
        proof {
            assert(current_extra_caps@ =~= offered_caps(a, sender as int, can_grant));
        }
        let n = self.copy_mrs(sender, receiver, tag.length);
        self.set_transfer_caps(receiver, ep, &mut tag, &current_extra_caps);
        let ghost k2 = *self;
        tag.length = n;
        self.tcbs[receiver].arch.reg_msg_info = tag;
        self.tcbs[receiver].arch.reg_badge = badge;
        proof {
            crate::kernel::lemma_wf_preserved_links(k2, *self);
            assert(self.tcbs@[receiver as int].arch.mrs@ =~= Seq::new(
                a.tcbs@[receiver as int].arch.mrs@.len(),
                |j: int|
                    if 0 <= j < transferred_len(a, sender as int, receiver as int) {
                        a.tcbs@[sender as int].arch.mrs@[j]
                    } else {
                        a.tcbs@[receiver as int].arch.mrs@[j]
                    },
            ));
        }
    }

    /// Move whatever the sender has to say: an ordinary message when it
    /// carries no fault, its fault record otherwise.
    pub fn do_ipc_transfer(
        &mut self,
        sender: usize,
        receiver: usize,
        ep: Option<usize>,
        badge: u64,
        grant: bool,
    )
        requires
            old(self).wf(),
            old(self).valid_tcb(sender as int),
            old(self).valid_tcb(receiver as int),
            sender != receiver,
        ensures
            final(self).wf(),
            (old(self).tcbs@[sender as int].fault == Fault::NullFault ==> normal_transfer_rel(
                *old(self),
                *final(self),
                sender as int,
                receiver as int,
                ep,
                badge,
                grant,
            )),
            (old(self).tcbs@[sender as int].fault != Fault::NullFault ==> fault_transfer_rel(
                *old(self),
                *final(self),
                sender as int,
                receiver as int,
                badge,
            )),
    {
        let is_null = match self.tcbs[sender].fault {
            Fault::NullFault => true,
            _ => false,
        };
        if is_null {
            self.do_normal_transfer(sender, receiver, ep, badge, grant);
        } else {
            self.do_fault_transfer(sender, receiver, badge);
        }
    }

    /// Copy a fault reply back into the faulted thread's registers, by
    /// the layout its fault asks for; the result says whether the thread
    /// should be restarted, which a non-zero reply label forbids.
    pub fn do_fault_reply_transfer(&mut self, sender: usize, receiver: usize) -> (restart: bool)
        requires
            old(self).wf(),
            old(self).valid_tcb(sender as int),
            old(self).valid_tcb(receiver as int),
            sender != receiver,
        ensures
            final(self).wf(),
            restart == (match old(self).tcbs@[receiver as int].fault {
                Fault::UnknownSyscall { .. } => old(
                    self,
                ).tcbs@[sender as int].arch.reg_msg_info.label == 0,
                Fault::UserException { .. } => old(
                    self,
                ).tcbs@[sender as int].arch.reg_msg_info.label == 0,
                Fault::Timeout { .. } => old(self).tcbs@[sender as int].arch.reg_msg_info.label
                    == 0,
                _ => true,
            }),
            tcbs_same_except(*old(self), *final(self), receiver as int),
            final(self).tcbs@[receiver as int] == (Tcb {
                arch: ArchTcb {
                    regs: final(self).tcbs@[receiver as int].arch.regs,
                    ..old(self).tcbs@[receiver as int].arch
                },
                ..old(self).tcbs@[receiver as int]
            }),
            final(self).tcbs@[receiver as int].arch.regs@ == fault_reply_regs(
                *old(self),
                sender as int,
                receiver as int,
            ),
            same_eps(*old(self), *final(self)),
            same_ntfns(*old(self), *final(self)),
            same_replies(*old(self), *final(self)),
            same_scs(*old(self), *final(self)),
            same_sched(*old(self), *final(self)),
    {
        proof {
            assert(old(self).tcb_ok(sender as int));
            assert(old(self).tcb_ok(receiver as int));
        }
        let ghost a = *old(self);
        let label = self.tcbs[sender].arch.reg_msg_info.label;
        let length = self.tcbs[sender].arch.reg_msg_info.length;
        let fault = self.tcbs[receiver].fault;
        let (id, cap, relevant): (FaultMessageId, usize, bool) = match fault {
            Fault::UnknownSyscall { .. } => (FaultMessageId::Syscall, N_SYSCALL_MESSAGE, true),
            Fault::UserException { .. } => (FaultMessageId::Exception, N_EXCEPTION_MESSAGE, true),
            Fault::Timeout { .. } => (FaultMessageId::TimeoutReply, N_TIMEOUT_MESSAGE, true),
            _ => (FaultMessageId::Syscall, 0, false),
        };
        if !relevant {
            proof {
                assert(self.tcbs@[receiver as int].arch.regs@ =~= fault_reply_regs(
                    a,
                    sender as int,
                    receiver as int,
                ));
            }
            return true;
        }
        let mut len = if length < cap {
            length
        } else {
            cap
        };
        if !self.tcbs[sender].has_buffer && len > N_MSG_REGISTERS {
            len = N_MSG_REGISTERS;
        }
        let mut i: usize = 0;
        while i < len
            invariant
                a.wf(),
                a.valid_tcb(sender as int),
                a.valid_tcb(receiver as int),
                sender != receiver,
                *old(self) == a,
                i <= len,
                len == fault_reply_len(a, sender as int, receiver as int),
                len <= N_SYSCALL_MESSAGE,
                (a.tcbs@[receiver as int].fault is UnknownSyscall && id
                    == FaultMessageId::Syscall) || (a.tcbs@[receiver as int].fault
                    is UserException && id == FaultMessageId::Exception) || (
                a.tcbs@[receiver as int].fault is Timeout && id == FaultMessageId::TimeoutReply),
                tcbs_same_except(a, *self, receiver as int),
                self.tcbs@[sender as int] == a.tcbs@[sender as int],
                self.tcbs@[receiver as int] == (Tcb {
                    arch: ArchTcb {
                        regs: self.tcbs@[receiver as int].arch.regs,
                        ..a.tcbs@[receiver as int].arch
                    },
                    ..a.tcbs@[receiver as int]
                }),
                self.tcbs@[receiver as int].arch.regs@ == Seq::new(
                    a.tcbs@[receiver as int].arch.regs@.len(),
                    |j: int|
                        if exists|w: int|
                            0 <= w < i && fault_message_register_spec(
                                fault_reply_id(a.tcbs@[receiver as int].fault),
                                w,
                            ) == j {
                            a.tcbs@[sender as int].arch.mrs@[choose|w: int|
                                0 <= w < i && fault_message_register_spec(
                                    fault_reply_id(a.tcbs@[receiver as int].fault),
                                    w,
                                ) == j]
                        } else {
                            a.tcbs@[receiver as int].arch.regs@[j]
                        },
                ),
                same_eps(a, *self),
                same_ntfns(a, *self),
                same_replies(a, *self),
                same_scs(a, *self),
                same_sched(a, *self),
            decreases len - i,
        {
            proof {
                assert(a.tcb_ok(sender as int));
                assert(a.tcb_ok(receiver as int));
            }
            let r = Self::fault_message_register(id, i);
            let v = self.tcbs[sender].arch.mrs[i];
            self.tcbs[receiver].arch.regs.set(r, v);
            i = i + 1;
            proof {
                let f = a.tcbs@[receiver as int].fault;
                assert forall|w1: int, w2: int|
                    0 <= w1 < w2 < len implies fault_message_register_spec(
                    fault_reply_id(f),
                    w1,
                ) != fault_message_register_spec(fault_reply_id(f), w2) by {}
                assert(self.tcbs@[receiver as int].arch.regs@ =~= Seq::new(
                    a.tcbs@[receiver as int].arch.regs@.len(),
                    |j: int|
                        if exists|w: int|
                            0 <= w < i && fault_message_register_spec(fault_reply_id(f), w)
                                == j {
                            a.tcbs@[sender as int].arch.mrs@[choose|w: int|
                                0 <= w < i && fault_message_register_spec(fault_reply_id(f), w)
                                    == j]
                        } else {
                            a.tcbs@[receiver as int].arch.regs@[j]
                        },
                ));
            }
        }
        proof {
            crate::kernel::lemma_wf_preserved_links(a, *self);
            assert(self.tcbs@[receiver as int].arch.regs@ =~= fault_reply_regs(
                a,
                sender as int,
                receiver as int,
            ));
        }
        label == 0
    }

    /// Deliver a reply to a thread awaiting one, deleting the caller
    /// capability that names it. Without a fault, the reply message is
    /// transferred and the thread runs again; with one, the reply words
    /// are copied back into its registers, the fault is cleared, and the
    /// thread is restarted when the reply label is zero and otherwise
    /// left inactive.
    #[verifier::rlimit(100)]
    #[verifier::spinoff_prover]
    pub fn do_reply(&mut self, replier: usize, receiver: usize, grant: bool)
        requires
            old(self).wf(),
            old(self).valid_tcb(replier as int),
            old(self).valid_tcb(receiver as int),
            replier != receiver,
            old(self).tcbs@[receiver as int].state.ts_type == ThreadState::BlockedOnReply,
            old(self).tcbs@[receiver as int].state.reply_object is None,
        ensures
            final(self).wf(),
            same_eps(*old(self), *final(self)),
            same_ntfns(*old(self), *final(self)),
            same_replies(*old(self), *final(self)),
            (old(self).tcbs@[receiver as int].fault is NullFault ==> transfer_scs_rel(
                *old(self),
                *final(self),
                replier as int,
            )),
            (!(old(self).tcbs@[receiver as int].fault is NullFault) ==> same_scs(
                *old(self),
                *final(self),
            )),
            same_cur(*old(self), *final(self)),
            final(self).ready_queue@ == old(self).ready_queue@,
            final(self).release_queue@ == old(self).release_queue@,
            final(self).timeout_event == old(self).timeout_event,
            final(self).tcbs@.len() == old(self).tcbs@.len(),
            final(self).tcbs@[replier as int] == (if old(
                self,
            ).tcbs@[receiver as int].caller_slot_in == Some(replier) {
                Tcb { caller_slot: None, ..old(self).tcbs@[replier as int] }
            } else {
                old(self).tcbs@[replier as int]
            }),
            (old(self).tcbs@[receiver as int].caller_slot_in matches Some(h)
                ==> tcbs_same_except2(*old(self), *final(self), receiver as int, h as int)
                && final(self).tcbs@[h as int] == (Tcb {
                caller_slot: None,
                ..old(self).tcbs@[h as int]
            })),
            (old(self).tcbs@[receiver as int].caller_slot_in is None ==> tcbs_same_except(
                *old(self),
                *final(self),
                receiver as int,
            )),
            final(self).tcbs@[receiver as int].caller_slot_in is None,
            ({
                let rcv = old(self).tcbs@[receiver as int];
                if rcv.fault is NullFault {
                    &&& crate::transfer::transferred_fields(
                        *old(self),
                        replier as int,
                        receiver as int,
                        final(self).tcbs@[receiver as int],
                        None,
                        0,
                        grant,
                    )
                    &&& final(self).tcbs@[receiver as int].state == (ThreadStateRecord {
                        ts_type: ThreadState::Running,
                        ..rcv.state
                    })
                    &&& final(self).tcbs@[receiver as int].fault == Fault::NullFault
                    &&& final(self).tcbs@[receiver as int].arch.regs@ == rcv.arch.regs@
                    &&& final(self).switch_candidate == Some(receiver)
                    &&& final(self).resched == old(self).resched
                } else {
                    let restart = match rcv.fault {
                        Fault::UnknownSyscall { .. } => old(
                            self,
                        ).tcbs@[replier as int].arch.reg_msg_info.label == 0,
                        Fault::UserException { .. } => old(
                            self,
                        ).tcbs@[replier as int].arch.reg_msg_info.label == 0,
                        Fault::Timeout { .. } => old(
                            self,
                        ).tcbs@[replier as int].arch.reg_msg_info.label == 0,
                        _ => true,
                    };
                    &&& final(self).tcbs@[receiver as int].arch.regs@ == fault_reply_regs(
                        *old(self),
                        replier as int,
                        receiver as int,
                    )
                    &&& final(self).tcbs@[receiver as int] == (Tcb {
                        state: ThreadStateRecord {
                            ts_type: if restart {
                                ThreadState::Restart
                            } else {
                                ThreadState::Inactive
                            },
                            ..rcv.state
                        },
                        arch: ArchTcb {
                            regs: final(self).tcbs@[receiver as int].arch.regs,
                            ..rcv.arch
                        },
                        fault: Fault::NullFault,
                        caller_slot_in: None,
                        ..rcv
                    })
                    &&& final(self).switch_candidate == (if restart {
                        Some(receiver)
                    } else {
                        old(self).switch_candidate
                    })
                    &&& final(self).resched == (old(self).resched || (!restart && old(
                        self,
                    ).cur_thread == Some(receiver)))
                }
            }),
    {
        proof {
            assert(old(self).tcb_ok(receiver as int));
            assert(old(self).tcb_ok(replier as int));
        }
        let fault_is_null = match self.tcbs[receiver].fault {
            Fault::NullFault => true,
            _ => false,
        };
        if fault_is_null {
            self.do_reply_normal(replier, receiver, grant);
        } else {
            self.do_reply_fault(replier, receiver);
        }
    }

    /// The faultless leg of [`Self::do_reply`]: transfer the reply
    /// message, delete the caller capability, and run the thread again.
    #[verifier::rlimit(100)]
    #[verifier::spinoff_prover]
    fn do_reply_normal(&mut self, replier: usize, receiver: usize, grant: bool)
        requires
            old(self).wf(),
            old(self).valid_tcb(replier as int),
            old(self).valid_tcb(receiver as int),
            replier != receiver,
            old(self).tcbs@[receiver as int].state.ts_type == ThreadState::BlockedOnReply,
            old(self).tcbs@[receiver as int].state.reply_object is None,
            old(self).tcbs@[receiver as int].fault is NullFault,
        ensures
            final(self).wf(),
            same_eps(*old(self), *final(self)),
            same_ntfns(*old(self), *final(self)),
            same_replies(*old(self), *final(self)),
            transfer_scs_rel(*old(self), *final(self), replier as int),
            same_cur(*old(self), *final(self)),
            final(self).ready_queue@ == old(self).ready_queue@,
            final(self).release_queue@ == old(self).release_queue@,
            final(self).timeout_event == old(self).timeout_event,
            final(self).tcbs@.len() == old(self).tcbs@.len(),
            final(self).tcbs@[replier as int] == (if old(
                self,
            ).tcbs@[receiver as int].caller_slot_in == Some(replier) {
                Tcb { caller_slot: None, ..old(self).tcbs@[replier as int] }
            } else {
                old(self).tcbs@[replier as int]
            }),
            (old(self).tcbs@[receiver as int].caller_slot_in matches Some(h)
                ==> tcbs_same_except2(*old(self), *final(self), receiver as int, h as int)
                && final(self).tcbs@[h as int] == (Tcb {
                caller_slot: None,
                ..old(self).tcbs@[h as int]
            })),
            (old(self).tcbs@[receiver as int].caller_slot_in is None ==> tcbs_same_except(
                *old(self),
                *final(self),
                receiver as int,
            )),
            crate::transfer::transferred_fields(
                *old(self),
                replier as int,
                receiver as int,
                final(self).tcbs@[receiver as int],
                None,
                0,
                grant,
            ),
            final(self).tcbs@[receiver as int].state == (ThreadStateRecord {
                ts_type: ThreadState::Running,
                ..old(self).tcbs@[receiver as int].state
            }),
            final(self).tcbs@[receiver as int].fault == Fault::NullFault,
            final(self).tcbs@[receiver as int].arch.regs@ == old(
                self,
            ).tcbs@[receiver as int].arch.regs@,
            final(self).tcbs@[receiver as int].caller_slot_in is None,
            final(self).switch_candidate == Some(receiver),
            final(self).resched == old(self).resched,
    {
        proof {
            assert(old(self).tcb_ok(receiver as int));
            assert(old(self).tcb_ok(replier as int));
        }
        self.do_ipc_transfer(replier, receiver, None, 0, grant);
        let ghost k1 = *self;
        let slot_in = self.tcbs[receiver].caller_slot_in;
        match slot_in {
            Some(h) => {
                proof {
                    assert(k1.tcb_ok(receiver as int));
                }
                self.delete_caller_cap(h);
                self.tcbs[receiver].caller_slot_in = None;
            },
            None => {},
        }
        proof {
            crate::kernel::lemma_wf_after_caller_cap_drop(k1, *self, receiver as int);
        }
        let ghost k2 = *self;
        self.set_thread_state(receiver, ThreadState::Running);
        self.possible_switch_to(receiver);
        proof {
            crate::kernel::lemma_wf_after_unqueued_update(k2, *self, receiver as int);
        }
    }

    /// The fault leg of [`Self::do_reply`]: delete the caller capability,
    /// copy the reply words back, clear the fault, and restart or
    /// deactivate the faulted thread by the reply label.
    #[verifier::rlimit(100)]
    #[verifier::spinoff_prover]
    fn do_reply_fault(&mut self, replier: usize, receiver: usize)
        requires
            old(self).wf(),
            old(self).valid_tcb(replier as int),
            old(self).valid_tcb(receiver as int),
            replier != receiver,
            old(self).tcbs@[receiver as int].state.ts_type == ThreadState::BlockedOnReply,
            old(self).tcbs@[receiver as int].state.reply_object is None,
            !(old(self).tcbs@[receiver as int].fault is NullFault),
        ensures
            final(self).wf(),
            same_eps(*old(self), *final(self)),
            same_ntfns(*old(self), *final(self)),
            same_replies(*old(self), *final(self)),
            same_scs(*old(self), *final(self)),
            same_cur(*old(self), *final(self)),
            final(self).ready_queue@ == old(self).ready_queue@,
            final(self).release_queue@ == old(self).release_queue@,
            final(self).timeout_event == old(self).timeout_event,
            final(self).tcbs@.len() == old(self).tcbs@.len(),
            final(self).tcbs@[replier as int] == (if old(
                self,
            ).tcbs@[receiver as int].caller_slot_in == Some(replier) {
                Tcb { caller_slot: None, ..old(self).tcbs@[replier as int] }
            } else {
                old(self).tcbs@[replier as int]
            }),
            (old(self).tcbs@[receiver as int].caller_slot_in matches Some(h)
                ==> tcbs_same_except2(*old(self), *final(self), receiver as int, h as int)
                && final(self).tcbs@[h as int] == (Tcb {
                caller_slot: None,
                ..old(self).tcbs@[h as int]
            })),
            (old(self).tcbs@[receiver as int].caller_slot_in is None ==> tcbs_same_except(
                *old(self),
                *final(self),
                receiver as int,
            )),
            ({
                let rcv = old(self).tcbs@[receiver as int];
                let restart = match rcv.fault {
                    Fault::UnknownSyscall { .. } => old(
                        self,
                    ).tcbs@[replier as int].arch.reg_msg_info.label == 0,
                    Fault::UserException { .. } => old(
                        self,
                    ).tcbs@[replier as int].arch.reg_msg_info.label == 0,
                    Fault::Timeout { .. } => old(
                        self,
                    ).tcbs@[replier as int].arch.reg_msg_info.label == 0,
                    _ => true,
                };
                &&& final(self).tcbs@[receiver as int].arch.regs@ == fault_reply_regs(
                    *old(self),
                    replier as int,
                    receiver as int,
                )
                &&& final(self).tcbs@[receiver as int] == (Tcb {
                    state: ThreadStateRecord {
                        ts_type: if restart {
                            ThreadState::Restart
                        } else {
                            ThreadState::Inactive
                        },
                        ..rcv.state
                    },
                    arch: ArchTcb {
                        regs: final(self).tcbs@[receiver as int].arch.regs,
                        ..rcv.arch
                    },
                    fault: Fault::NullFault,
                    caller_slot_in: None,
                    ..rcv
                })
                &&& final(self).switch_candidate == (if restart {
                    Some(receiver)
                } else {
                    old(self).switch_candidate
                })
                &&& final(self).resched == (old(self).resched || (!restart && old(
                    self,
                ).cur_thread == Some(receiver)))
            }),
    {
        proof {
            assert(old(self).tcb_ok(receiver as int));
            assert(old(self).tcb_ok(replier as int));
        }
            let slot_in = self.tcbs[receiver].caller_slot_in;
            match slot_in {
                Some(h) => {
                    proof {
                        assert(old(self).tcb_ok(receiver as int));
                    }
                    self.delete_caller_cap(h);
                    self.tcbs[receiver].caller_slot_in = None;
                },
                None => {},
            }
            proof {
                crate::kernel::lemma_wf_after_caller_cap_drop(*old(self), *self, receiver as int);
            }
            let ghost k1 = *self;
            let restart = self.do_fault_reply_transfer(replier, receiver);
            proof {
                assert(self.tcbs@[receiver as int].arch.regs@ =~= fault_reply_regs(
                    *old(self),
                    replier as int,
                    receiver as int,
                )) by {
                    assert(fault_reply_regs(k1, replier as int, receiver as int)
                        =~= fault_reply_regs(*old(self), replier as int, receiver as int));
                }
            }
            let ghost k2 = *self;
            self.tcbs[receiver].fault = Fault::NullFault;
            proof {
                crate::kernel::lemma_wf_preserved_links(k2, *self);
            }
            let ghost k3 = *self;
            if restart {
                self.set_thread_state(receiver, ThreadState::Restart);
                self.possible_switch_to(receiver);
            } else {
                self.set_thread_state(receiver, ThreadState::Inactive);
            }
            proof {
                crate::kernel::lemma_wf_after_unqueued_update(k3, *self, receiver as int);
            }
    }

    /// Consume a pending signal on the thread's bound notification: when
    /// that notification is active, its badge lands in the thread's badge
    /// register and it goes idle; a scheduling context the notification
    /// holds may be donated, with a sporadic refill check after.
    pub fn complete_signal(&mut self, t: usize) -> (consumed: bool)
        requires
            old(self).wf(),
            old(self).valid_tcb(t as int),
        ensures
            final(self).wf(),
            same_eps(*old(self), *final(self)),
            same_replies(*old(self), *final(self)),
            same_cur(*old(self), *final(self)),
            final(self).ready_queue@ == old(self).ready_queue@,
            final(self).release_queue@ == old(self).release_queue@,
            final(self).switch_candidate == old(self).switch_candidate,
            final(self).timeout_event == old(self).timeout_event,
            final(self).resched == old(self).resched,
            consumed == (old(self).tcbs@[t as int].bound_notification matches Some(n) && old(
                self,
            ).notifications@[n as int].state == NtfnState::Active),
            ({
                if consumed {
                    signal_consumed_rel(*old(self), *final(self), t as int)
                } else {
                    &&& same_tcbs(*old(self), *final(self))
                    &&& same_ntfns(*old(self), *final(self))
                    &&& same_scs(*old(self), *final(self))
                }
            }),
    {
        proof {
            assert(old(self).tcb_ok(t as int));
        }
        let bn = self.tcbs[t].bound_notification;
        match bn {
            Some(n) => {
                let st = self.get_ntfn_state(n);
                if st == NtfnState::Active {
                    proof {
                        assert(old(self).ntfn_ok(n as int));
                    }
                    let badge = self.notifications[n].badge;
                    self.tcbs[t].arch.reg_badge = badge;
                    self.notifications[n].state = NtfnState::Idle;
                    proof {
                        let a = *old(self);
                        let b = *self;
                        a.lemma_len_bounds();
                        assert forall|tt: int| 0 <= tt < b.tcbs@.len() implies b.tcb_ok(tt) by {
                            assert(a.tcb_ok(tt));
                        }
                        assert forall|e: int| 0 <= e < b.endpoints@.len() implies b.ep_ok(e) by {
                            assert(a.ep_ok(e));
                        }
                        assert forall|m: int| 0 <= m < b.notifications@.len() implies b.ntfn_ok(
                            m,
                        ) by {
                            assert(a.ntfn_ok(m));
                        }
                        assert forall|r: int| 0 <= r < b.replies@.len() implies b.reply_ok(r) by {
                            assert(a.reply_ok(r));
                        }
                        assert forall|s: int| 0 <= s < b.scs@.len() implies b.sc_ok(s) by {
                            assert(a.sc_ok(s));
                        }
                    }
                    let ghost k1 = *self;
                    let t_has_sc = match self.tcbs[t].sched_context {
                        Some(_) => true,
                        None => false,
                    };
                    if !t_has_sc {
                        match self.notifications[n].sched_context {
                            Some(s) => {
                                let sc_free = match self.scs[s].tcb {
                                    Some(_) => false,
                                    None => true,
                                };
                                if sc_free {
                                    self.sched_context_donate(s, t);
                                    proof {
                                        crate::kernel::lemma_wf_after_sc_donate(
                                            k1,
                                            *self,
                                            s as int,
                                            t as int,
                                        );
                                    }
                                }
                            },
                            None => {},
                        }
                    }
                    let ghost k2 = *self;
                    match self.tcbs[t].sched_context {
                        Some(s2) => {
                            if self.scs[s2].sporadic {
                                let same_sc = match self.notifications[n].sched_context {
                                    Some(x) => x == s2,
                                    None => false,
                                };
                                let is_cur = match self.cur_sc {
                                    Some(c) => c == s2,
                                    None => false,
                                };
                                if same_sc && !is_cur {
                                    self.refill_unblock_check(s2);
                                    proof {
                                        crate::kernel::lemma_wf_preserved_links(k2, *self);
                                    }
                                }
                            }
                        },
                        None => {},
                    }
                    true
                } else {
                    false
                }
            },
            None => false,
        }
    }
}

} // verus!
