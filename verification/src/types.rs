//! The object types of the IPC core: thread control blocks, endpoints,
//! notifications, reply objects and scheduling contexts, together with the
//! message-layout constants of the modelled architecture.
//!
//! Kernel objects refer to one another by index into the per-type tables of
//! [`crate::kernel::Kernel`]; an `Option<usize>` field is a nullable object
//! reference.

use vstd::prelude::*;

verus! {

/// Number of message registers passed in the register file.
pub const N_MSG_REGISTERS: usize = 4;

/// Greatest message length, registers and IPC buffer together.
pub const MSG_MAX_LENGTH: usize = 120;

/// Greatest number of extra capabilities accompanying one message.
pub const MAX_EXTRA_CAPS: usize = 3;

/// Number of general registers a thread context carries in this model:
/// the faulting instruction pointer, the stack pointer, and eight
/// argument registers, then two scratch registers.
pub const N_CONTEXT_REGISTERS: usize = 12;

/// Register index of the faulting instruction pointer.
pub const REG_FAULT_IP: usize = 0;

/// Register index of the stack pointer.
pub const REG_SP: usize = 1;

/// Register index of the first argument register; the eight argument
/// registers occupy indices 2 through 9.
pub const REG_A0: usize = 2;

/// Length of the unknown-syscall fault message.
pub const N_SYSCALL_MESSAGE: usize = 10;

/// Length of the user-exception fault message.
pub const N_EXCEPTION_MESSAGE: usize = 2;

/// Length of the timeout fault reply message.
pub const N_TIMEOUT_MESSAGE: usize = 2;

/// Message register holding the faulting instruction pointer of a
/// capability fault.
pub const CAP_FAULT_IP: usize = 0;

/// Message register holding the faulted address of a capability fault.
pub const CAP_FAULT_ADDR: usize = 1;

/// Message register telling whether a capability fault arose in the
/// receive phase.
pub const CAP_FAULT_IN_RECV_PHASE: usize = 2;

/// First message register of the lookup-failure description of a
/// capability fault.
pub const CAP_FAULT_LOOKUP_FAILURE_TYPE: usize = 3;

/// Message register holding the faulting instruction pointer of a VM fault.
pub const VM_FAULT_IP: usize = 0;

/// Message register holding the faulted address of a VM fault.
pub const VM_FAULT_ADDR: usize = 1;

/// Message register telling whether a VM fault was an instruction fetch.
pub const VM_FAULT_PREFETCH_FAULT: usize = 2;

/// Message register holding the fault status register of a VM fault.
pub const VM_FAULT_FSR: usize = 3;

/// Message register holding the badge of a timeout fault.
pub const TIMEOUT_DATA: usize = 0;

/// Message label of a capability fault.
pub const FAULT_LABEL_CAP_FAULT: u64 = 1;

/// Message label of an unknown-syscall fault.
pub const FAULT_LABEL_UNKNOWN_SYSCALL: u64 = 2;

/// Message label of a user-exception fault.
pub const FAULT_LABEL_USER_EXCEPTION: u64 = 3;

/// Message label of a VM fault.
pub const FAULT_LABEL_VM_FAULT: u64 = 5;

/// Message label of a timeout fault.
pub const FAULT_LABEL_TIMEOUT: u64 = 6;

/// Lookup-failure code of an invalid root.
pub const LOOKUP_INVALID_ROOT: u64 = 1;

/// Lookup-failure code of a missing capability.
pub const LOOKUP_MISSING_CAPABILITY: u64 = 2;

/// Lookup-failure code of a depth mismatch.
pub const LOOKUP_DEPTH_MISMATCH: u64 = 3;

/// Lookup-failure code of a guard mismatch.
pub const LOOKUP_GUARD_MISMATCH: u64 = 4;

/// The state of an endpoint
#[derive(Clone, Copy, PartialEq, Eq, Structural, Debug)]
pub enum EPState {
    Idle,
    Send,
    Recv,
}

/// The state of a notification
#[derive(Clone, Copy, PartialEq, Eq, Structural, Debug)]
pub enum NtfnState {
    Idle,
    Waiting,
    Active,
}

/// The scheduling-relevant state of a thread.
#[derive(Clone, Copy, PartialEq, Eq, Structural, Debug)]
pub enum ThreadState {
    Inactive,
    Running,
    Restart,
    BlockedOnReceive,
    BlockedOnSend,
    BlockedOnReply,
    BlockedOnNotification,
    IdleThreadState,
}

/// Why a capability lookup failed; marshalled into message registers when a
/// capability fault is transferred.
#[derive(Clone, Copy, PartialEq, Eq, Structural, Debug)]
pub enum LookupFault {
    InvalidRoot,
    MissingCapability { bits_left: u64 },
    DepthMismatch { bits_left: u64, bits_found: u64 },
    GuardMismatch { bits_left: u64, guard_found: u64, bits_found: u64 },
}

/// The fault record a thread carries; `NullFault` means no fault.
#[derive(Clone, Copy, PartialEq, Eq, Structural, Debug)]
pub enum Fault {
    NullFault,
    CapFault { address: u64, in_receive_phase: bool },
    UnknownSyscall { syscall_number: u64 },
    UserException { number: u64, code: u64 },
    VMFault { address: u64, fsr: u64, instruction_fault: bool },
    Timeout { badge: u64 },
}

/// A capability as the transfer engine sees it. `derive_ok` on a
/// non-endpoint capability says whether the capability-space collaborator
/// can derive it; deriving an endpoint capability always succeeds.
#[derive(Clone, Copy, PartialEq, Eq, Structural, Debug)]
pub enum Cap {
    Null,
    EndpointCap { ep: usize, badge: u64 },
    Other { id: u64, derive_ok: bool },
}

/// The receive slot of a thread: absent, empty, or holding a capability
/// installed by an earlier transfer.
#[derive(Clone, Copy, PartialEq, Eq, Structural, Debug)]
pub enum ReceiveSlot {
    NoSlot,
    Free,
    Full(Cap),
}

/// The caller capability installed by a call rendezvous: it names the
/// caller thread awaiting the reply and whether the reply may grant.
#[derive(Clone, Copy, PartialEq, Eq, Structural, Debug)]
pub struct CallerCap {
    pub caller: usize,
    pub can_grant: bool,
}

/// Which fault-reply message layout to use when copying registers back.
#[derive(Clone, Copy, PartialEq, Eq, Structural, Debug)]
pub enum FaultMessageId {
    Syscall,
    Exception,
    TimeoutReply,
}

/// The message-information register, kept as plain fields; the packed
/// word encoding belongs to the bitfield layer outside this core.
#[derive(Clone, Copy, PartialEq, Eq, Structural, Debug)]
pub struct MsgInfo {
    pub label: u64,
    pub caps_unwrapped: u64,
    pub extra_caps: usize,
    pub length: usize,
}

/// The thread-state record of a thread: its scheduling state and, while it
/// is blocked, the object and IPC control bits it blocked with.
#[derive(Clone, Copy, PartialEq, Eq, Structural, Debug)]
pub struct ThreadStateRecord {
    pub ts_type: ThreadState,
    pub blocking_object: Option<usize>,
    pub blocking_badge: u64,
    pub blocking_can_grant: bool,
    pub blocking_can_grant_reply: bool,
    pub blocking_is_call: bool,
    pub reply_object: Option<usize>,
}

/// The architectural context of a thread: the general register file, the
/// message registers (register part and IPC-buffer part laid out as one
/// array), and the badge and message-information registers.
pub struct ArchTcb {
    pub regs: Vec<u64>,
    pub mrs: Vec<u64>,
    pub reg_badge: u64,
    pub reg_msg_info: MsgInfo,
}

/// A thread control block. Only the fields the IPC core reads or writes
/// are modelled; the thread is owned by the surrounding kernel.
pub struct Tcb {
    pub state: ThreadStateRecord,
    pub arch: ArchTcb,
    pub fault: Fault,
    pub lookup_failure: LookupFault,
    /// Whether the thread has a mapped IPC buffer.
    pub has_buffer: bool,
    /// The `caps_or_badges` words of the thread's IPC buffer.
    pub caps_or_badges: Vec<u64>,
    /// What resolving the thread's extra-capabilities list yields.
    pub extra_caps: Vec<Cap>,
    /// Whether resolving the extra-capabilities list succeeds.
    pub lookup_extra_ok: bool,
    pub receive_slot: ReceiveSlot,
    /// The caller capability sitting in this thread's caller slot.
    pub caller_slot: Option<CallerCap>,
    /// The thread whose caller slot holds the caller capability naming
    /// this thread, while this thread awaits a reply.
    pub caller_slot_in: Option<usize>,
    pub bound_notification: Option<usize>,
    pub sched_context: Option<usize>,
    /// Whether the thread has a valid timeout-fault handler.
    pub timeout_handler_valid: bool,
}

/// A synchronous rendezvous endpoint: its state and its queue of blocked
/// threads, senders or receivers but never a mixture.
pub struct Endpoint {
    pub state: EPState,
    pub queue: Vec<usize>,
}

/// An asynchronous notification: its state, the accumulated badge word,
/// the queue of blocked waiters, the optionally bound thread, and the
/// scheduling context it may hold for donation.
pub struct Notification {
    pub state: NtfnState,
    pub badge: u64,
    pub queue: Vec<usize>,
    pub bound_tcb: Option<usize>,
    pub sched_context: Option<usize>,
}

/// A reply object: the suspended caller it links to, and the scheduling
/// context donated through it, owed back on reply delivery.
pub struct Reply {
    pub tcb: Option<usize>,
    pub sched_context: Option<usize>,
}

/// A scheduling context: the thread it is bound to and the refill facts
/// the IPC core consults; budget accounting itself lives outside the core.
pub struct SchedContext {
    pub tcb: Option<usize>,
    pub sporadic: bool,
    pub refill_ready: bool,
    pub refill_sufficient: bool,
    pub badge: u64,
    pub consumed: u64,
}

/// A recorded invocation of the timeout handler: the thread it concerns
/// and the badge of the published timeout fault.
#[derive(Clone, Copy, PartialEq, Eq, Structural, Debug)]
pub struct TimeoutEvent {
    pub tcb: usize,
    pub badge: u64,
}

/// Whether a thread state lets the scheduler run the thread.
pub open spec fn runnable(ts: ThreadState) -> bool {
    ts == ThreadState::Running || ts == ThreadState::Restart
}

} // verus!
