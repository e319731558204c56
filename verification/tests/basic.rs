use ipc_core::kernel::Kernel;
use ipc_core::types::{
    ArchTcb, EPState, Endpoint, Fault, LookupFault, MsgInfo, Notification, NtfnState, ReceiveSlot,
    Tcb, ThreadState, ThreadStateRecord,
};

fn empty_kernel() -> Kernel {
    Kernel {
        tcbs: Vec::new(),
        endpoints: Vec::new(),
        notifications: Vec::new(),
        replies: Vec::new(),
        scs: Vec::new(),
        cur_thread: None,
        cur_sc: None,
        ready_queue: Vec::new(),
        release_queue: Vec::new(),
        switch_candidate: None,
        resched: false,
        timeout_event: None,
    }
}

fn running_tcb() -> Tcb {
    Tcb {
        state: ThreadStateRecord {
            ts_type: ThreadState::Running,
            blocking_object: None,
            blocking_badge: 0,
            blocking_can_grant: false,
            blocking_can_grant_reply: false,
            blocking_is_call: false,
            reply_object: None,
        },
        arch: ArchTcb {
            regs: vec![0; 12],
            mrs: vec![0; 120],
            reg_badge: 0,
            reg_msg_info: MsgInfo { label: 0, caps_unwrapped: 0, extra_caps: 0, length: 0 },
        },
        fault: Fault::NullFault,
        lookup_failure: LookupFault::InvalidRoot,
        has_buffer: true,
        caps_or_badges: vec![0; 3],
        extra_caps: Vec::new(),
        lookup_extra_ok: true,
        receive_slot: ReceiveSlot::NoSlot,
        caller_slot: None,
        caller_slot_in: None,
        bound_notification: None,
        sched_context: None,
        timeout_handler_valid: false,
    }
}

fn idle_endpoint() -> Endpoint {
    Endpoint { state: EPState::Idle, queue: Vec::new() }
}

fn idle_notification() -> Notification {
    Notification {
        state: NtfnState::Idle,
        badge: 0,
        queue: Vec::new(),
        bound_tcb: None,
        sched_context: None,
    }
}

#[test]
fn notification_badge_accumulates() {
    let mut k = empty_kernel();
    k.notifications.push(idle_notification());
    k.send_signal(0, 0x1);
    assert_eq!(k.notifications[0].state, NtfnState::Active);
    assert_eq!(k.notifications[0].badge, 0x1);
    k.send_signal(0, 0x4);
    assert_eq!(k.notifications[0].badge, 0x5);
    let mut k2 = empty_kernel();
    k2.notifications.push(idle_notification());
    k2.send_signal(0, 0x4);
    k2.send_signal(0, 0x1);
    assert_eq!(k2.notifications[0].badge, 0x5);
}

#[test]
fn endpoint_starts_idle() {
    let mut k = empty_kernel();
    k.endpoints.push(idle_endpoint());
    assert_eq!(k.get_ep_state(0), EPState::Idle);
    k.send_ipc(0, 0, false, false, false, 9, false);
}

#[test]
fn cancel_all_ipc_drains() {
    let mut k = empty_kernel();
    k.endpoints.push(idle_endpoint());
    for _ in 0..3 {
        k.tcbs.push(running_tcb());
    }
    k.send_ipc(0, 0, true, false, false, 1, false);
    k.send_ipc(0, 1, true, false, false, 2, false);
    k.send_ipc(0, 2, true, false, false, 3, false);
    assert_eq!(k.endpoints[0].state, EPState::Send);
    assert_eq!(k.endpoints[0].queue, vec![0, 1, 2]);
    k.cancel_all_ipc(0);
    assert_eq!(k.endpoints[0].state, EPState::Idle);
    assert!(k.endpoints[0].queue.is_empty());
    for t in 0..3 {
        assert_eq!(k.tcbs[t].state.ts_type, ThreadState::Restart);
        assert!(k.ready_queue.contains(&t));
    }
    assert!(k.resched);
}

#[test]
fn cancel_badged_sends_selectivity() {
    // Queue [S0(badge 1), S1(badge 2), S2(badge 1)]; cancelling badge 1
    // leaves [S1] sending, and S0 and S2 are restarted.
    let mut k = empty_kernel();
    k.endpoints.push(idle_endpoint());
    for _ in 0..3 {
        k.tcbs.push(running_tcb());
    }
    k.send_ipc(0, 0, true, false, false, 1, false);
    k.send_ipc(0, 1, true, false, false, 2, false);
    k.send_ipc(0, 2, true, false, false, 1, false);
    k.cancel_badged_sends(0, 1);
    assert_eq!(k.endpoints[0].queue, vec![1]);
    assert_eq!(k.endpoints[0].state, EPState::Send);
    assert_eq!(k.tcbs[0].state.ts_type, ThreadState::Restart);
    assert_eq!(k.tcbs[2].state.ts_type, ThreadState::Restart);
    assert_eq!(k.tcbs[1].state.ts_type, ThreadState::BlockedOnSend);
    assert_eq!(k.ready_queue, vec![0, 2]);
    k.cancel_badged_sends(0, 2);
    assert_eq!(k.endpoints[0].state, EPState::Idle);
    assert!(k.endpoints[0].queue.is_empty());
}

#[test]
fn call_rendezvous_installs_caller_cap() {
    // T0 calls with grant-reply; T1 receives: message and badge arrive,
    // T1 holds the caller capability and T0 awaits the reply.
    let mut k = empty_kernel();
    k.endpoints.push(idle_endpoint());
    k.tcbs.push(running_tcb());
    k.tcbs.push(running_tcb());
    k.tcbs[0].arch.mrs[0] = 0xDEAD;
    k.tcbs[0].arch.reg_msg_info.length = 1;
    k.send_ipc(0, 0, true, true, false, 0x42, true);
    assert_eq!(k.endpoints[0].state, EPState::Send);
    k.receive_ipc(0, 1, true, true);
    assert_eq!(k.endpoints[0].state, EPState::Idle);
    assert_eq!(k.tcbs[1].arch.reg_badge, 0x42);
    assert_eq!(k.tcbs[1].arch.mrs[0], 0xDEAD);
    let cap = k.tcbs[1].caller_slot.expect("caller capability installed");
    assert_eq!(cap.caller, 0);
    assert_eq!(k.tcbs[0].state.ts_type, ThreadState::BlockedOnReply);
    assert_eq!(k.tcbs[0].caller_slot_in, Some(1));
}

#[test]
fn call_without_grant_leaves_sender_inactive() {
    let mut k = empty_kernel();
    k.endpoints.push(idle_endpoint());
    k.tcbs.push(running_tcb());
    k.tcbs.push(running_tcb());
    k.send_ipc(0, 0, true, true, false, 7, false);
    k.receive_ipc(0, 1, true, false);
    assert_eq!(k.tcbs[0].state.ts_type, ThreadState::Inactive);
    assert!(k.tcbs[1].caller_slot.is_none());
}

#[test]
fn nonblocking_send_rendezvouses_with_waiting_receiver() {
    // A receiver is queued, so even a non-blocking send delivers.
    let mut k = empty_kernel();
    k.endpoints.push(idle_endpoint());
    k.tcbs.push(running_tcb());
    k.tcbs.push(running_tcb());
    k.receive_ipc(0, 0, true, false);
    assert_eq!(k.endpoints[0].state, EPState::Recv);
    k.tcbs[1].arch.mrs[0] = 0x77;
    k.tcbs[1].arch.reg_msg_info.length = 1;
    k.send_ipc(0, 1, false, false, false, 0x9, false);
    assert_eq!(k.endpoints[0].state, EPState::Idle);
    assert_eq!(k.tcbs[0].arch.reg_badge, 0x9);
    assert_eq!(k.tcbs[0].arch.mrs[0], 0x77);
    assert_eq!(k.tcbs[0].state.ts_type, ThreadState::Running);
}

#[test]
fn nonblocking_send_to_idle_endpoint_is_dropped() {
    let mut k = empty_kernel();
    k.endpoints.push(idle_endpoint());
    k.tcbs.push(running_tcb());
    k.send_ipc(0, 0, false, false, false, 5, false);
    assert_eq!(k.endpoints[0].state, EPState::Idle);
    assert_eq!(k.tcbs[0].state.ts_type, ThreadState::Running);
}

#[test]
fn signal_delivers_to_bound_receiver() {
    // The bound thread blocked receiving is pulled off its endpoint and
    // runs with the badge; the notification stays idle.
    let mut k = empty_kernel();
    k.endpoints.push(idle_endpoint());
    k.notifications.push(idle_notification());
    k.tcbs.push(running_tcb());
    k.bind_tcb(0, 0);
    k.receive_ipc(0, 0, true, false);
    assert_eq!(k.tcbs[0].state.ts_type, ThreadState::BlockedOnReceive);
    k.send_signal(0, 0x7);
    assert_eq!(k.tcbs[0].state.ts_type, ThreadState::Running);
    assert_eq!(k.tcbs[0].arch.reg_badge, 0x7);
    assert_eq!(k.notifications[0].state, NtfnState::Idle);
    assert!(k.endpoints[0].queue.is_empty());
    assert_eq!(k.endpoints[0].state, EPState::Idle);
}

#[test]
fn pending_signal_consumed_instead_of_receiving() {
    let mut k = empty_kernel();
    k.endpoints.push(idle_endpoint());
    k.notifications.push(idle_notification());
    k.tcbs.push(running_tcb());
    k.bind_tcb(0, 0);
    k.send_signal(0, 0xB);
    assert_eq!(k.notifications[0].state, NtfnState::Active);
    k.receive_ipc(0, 0, true, false);
    assert_eq!(k.tcbs[0].arch.reg_badge, 0xB);
    assert_eq!(k.tcbs[0].state.ts_type, ThreadState::Running);
    assert_eq!(k.notifications[0].state, NtfnState::Idle);
    assert_eq!(k.endpoints[0].state, EPState::Idle);
}

#[test]
fn fault_reply_round_trip_restores_registers() {
    // A user exception is marshalled out, the handler replies with label
    // zero, and the faulted thread restarts with the reply registers.
    let mut k = empty_kernel();
    k.tcbs.push(running_tcb());
    k.tcbs.push(running_tcb());
    k.tcbs[0].state.ts_type = ThreadState::BlockedOnReply;
    k.tcbs[0].fault = Fault::UserException { number: 5, code: 9 };
    k.tcbs[1].arch.reg_msg_info.label = 0;
    k.tcbs[1].arch.reg_msg_info.length = ipc_core::types::N_EXCEPTION_MESSAGE;
    k.tcbs[1].arch.mrs[0] = 0xAA;
    k.tcbs[1].arch.mrs[1] = 0xBB;
    k.do_reply(1, 0, false);
    assert_eq!(k.tcbs[0].state.ts_type, ThreadState::Restart);
    assert_eq!(k.tcbs[0].fault, Fault::NullFault);
    assert_eq!(k.tcbs[0].arch.regs[ipc_core::types::REG_FAULT_IP], 0xAA);
    assert_eq!(k.tcbs[0].arch.regs[ipc_core::types::REG_SP], 0xBB);
}

#[test]
fn fault_reply_nonzero_label_deactivates() {
    let mut k = empty_kernel();
    k.tcbs.push(running_tcb());
    k.tcbs.push(running_tcb());
    k.tcbs[0].state.ts_type = ThreadState::BlockedOnReply;
    k.tcbs[0].fault = Fault::UserException { number: 1, code: 2 };
    k.tcbs[1].arch.reg_msg_info.label = 3;
    k.do_reply(1, 0, false);
    assert_eq!(k.tcbs[0].state.ts_type, ThreadState::Inactive);
    assert_eq!(k.tcbs[0].fault, Fault::NullFault);
}

#[test]
fn reply_to_caller_resumes_it() {
    // A full call round trip: call, receive, reply; the caller runs
    // again and the caller capability is gone.
    let mut k = empty_kernel();
    k.endpoints.push(idle_endpoint());
    k.tcbs.push(running_tcb());
    k.tcbs.push(running_tcb());
    k.send_ipc(0, 0, true, true, true, 1, false);
    k.receive_ipc(0, 1, true, true);
    assert_eq!(k.tcbs[0].state.ts_type, ThreadState::BlockedOnReply);
    k.tcbs[1].arch.reg_msg_info.length = 1;
    k.tcbs[1].arch.mrs[0] = 0xF00D;
    k.do_reply(1, 0, false);
    assert_eq!(k.tcbs[0].state.ts_type, ThreadState::Running);
    assert_eq!(k.tcbs[0].arch.mrs[0], 0xF00D);
    assert!(k.tcbs[1].caller_slot.is_none());
    assert!(k.tcbs[0].caller_slot_in.is_none());
}

#[test]
fn fifo_rendezvous_order() {
    // Three senders; each receive pairs with the next sender in order.
    let mut k = empty_kernel();
    k.endpoints.push(idle_endpoint());
    for _ in 0..4 {
        k.tcbs.push(running_tcb());
    }
    k.send_ipc(0, 0, true, false, false, 10, false);
    k.send_ipc(0, 1, true, false, false, 11, false);
    k.send_ipc(0, 2, true, false, false, 12, false);
    k.receive_ipc(0, 3, false, false);
    assert_eq!(k.tcbs[3].arch.reg_badge, 10);
    k.receive_ipc(0, 3, false, false);
    assert_eq!(k.tcbs[3].arch.reg_badge, 11);
    k.receive_ipc(0, 3, false, false);
    assert_eq!(k.tcbs[3].arch.reg_badge, 12);
    assert_eq!(k.endpoints[0].state, EPState::Idle);
}

#[test]
fn cancel_all_signal_restarts_waiters() {
    let mut k = empty_kernel();
    k.notifications.push(idle_notification());
    k.tcbs.push(running_tcb());
    k.tcbs.push(running_tcb());
    k.receive_signal(0, 0, true);
    k.receive_signal(0, 1, true);
    assert_eq!(k.notifications[0].state, NtfnState::Waiting);
    k.cacncel_all_signal(0);
    assert_eq!(k.notifications[0].state, NtfnState::Idle);
    assert_eq!(k.tcbs[0].state.ts_type, ThreadState::Restart);
    assert_eq!(k.tcbs[1].state.ts_type, ThreadState::Restart);
}
