//! The IPC core: interface registry, per-process message queues, the
//! outstanding-response table, message-id allocation, delivery and wakeup.
//!
//! The core is a state machine over plain data. Every entry point takes a
//! typed intent and returns the actions the driver must perform on the
//! execution engine (memory writes, thread resumptions); events for the outer
//! run loop accumulate in an internal queue drained by [`Core::run`]. The
//! engine itself (instantiation, running threads, reading linear memory) is
//! outside the core and is driven by the embedder.

use vstd::prelude::*;

use crate::id_pool::IdPool;
use crate::ids::{EncodedMessage, InterfaceHash, MessageId, Pid, ThreadId};
use crate::wire;

verus! {

/// Maximum accepted length of a message body, in bytes.
pub const MAX_MESSAGE_BODY: usize = 16 * 1024 * 1024;

/// Largest number of message ids a single `next_message` call may wait on.
pub const MAX_MSG_IDS: usize = 512;

/// The sentinel id matching any interface or process-destroyed message.
pub const ANY_MESSAGE_SENTINEL: u64 = 1;

/// A message sitting in a process's incoming queue. The `index_in_list`
/// field of the wire frame is chosen at delivery time, not stored here.
#[derive(Debug)]
pub enum KernelMessage {
    /// A message emitted on an interface this process handles.
    Interface {
        /// Interface the message was emitted on.
        interface: InterfaceHash,
        /// Id to answer, or `None` if no answer is expected.
        message_id: Option<MessageId>,
        /// The process that emitted the message.
        emitter_pid: Pid,
        /// The message body.
        actual_data: EncodedMessage,
    },
    /// The response to a message this process emitted.
    Response {
        /// Id of the message being answered.
        message_id: MessageId,
        /// The response body, or `Err` if the handler died or refused it.
        actual_data: Result<EncodedMessage, ()>,
    },
    /// A process that used one of this process's interfaces was destroyed.
    ProcessDestroyed {
        /// The destroyed process.
        pid: Pid,
    },
}

/// The id a `next_message` list entry must hold for `m` to match it.
pub open spec fn match_key(m: KernelMessage) -> u64 {
    match m {
        KernelMessage::Interface { .. } => ANY_MESSAGE_SENTINEL as u64,
        KernelMessage::ProcessDestroyed { .. } => ANY_MESSAGE_SENTINEL as u64,
        KernelMessage::Response { message_id, .. } => message_id.0,
    }
}

/// The wire frame of `m` with `index_in_list` set to `idx`.
pub open spec fn frame_of(m: KernelMessage, idx: u32) -> Seq<u8> {
    match m {
        KernelMessage::Interface { interface, message_id, emitter_pid, actual_data } => {
            wire::interface_frame(
                interface@,
                wire::message_id_raw(message_id),
                emitter_pid.0,
                idx,
                actual_data@,
            )
        },
        KernelMessage::Response { message_id, actual_data } => {
            wire::response_frame(
                message_id.0,
                idx,
                match actual_data {
                    Ok(d) => Ok(d@),
                    Err(_) => Err(()),
                },
            )
        },
        KernelMessage::ProcessDestroyed { pid } => wire::process_destroyed_frame(pid.0, idx),
    }
}

/// Length in bytes of the wire frame of `m`; independent of `index_in_list`.
pub open spec fn encoded_len_of(m: KernelMessage) -> int {
    match m {
        KernelMessage::Interface { actual_data, .. } => 53 + actual_data@.len() as int,
        KernelMessage::Response { actual_data: Ok(d), .. } => 14 + d@.len() as int,
        KernelMessage::Response { actual_data: Err(_), .. } => 14,
        KernelMessage::ProcessDestroyed { .. } => 13,
    }
}

/// A queued message respects the machine limits and the sentinel rules.
pub open spec fn wf_message(m: KernelMessage) -> bool {
    match m {
        KernelMessage::Interface { message_id, actual_data, .. } => {
            &&& actual_data@.len() <= MAX_MESSAGE_BODY
            &&& (message_id matches Some(id) ==> id.0 >= 2)
        },
        KernelMessage::Response { message_id, actual_data } => {
            &&& message_id.0 >= 2
            &&& (actual_data matches Ok(d) ==> d@.len() <= MAX_MESSAGE_BODY)
        },
        KernelMessage::ProcessDestroyed { .. } => true,
    }
}

/// The frame of a well-formed message has the stated length.
pub proof fn lemma_frame_len(m: KernelMessage, idx: u32)
    ensures
        frame_of(m, idx).len() == encoded_len_of(m),
{
}

/// State of a thread, as tracked by the core.
#[derive(Debug)]
pub enum ThreadState {
    /// Ready for the engine to advance.
    Runnable,
    /// Blocked in `next_message`.
    WaitMessage {
        /// Ids being waited on; `0` is an ignored slot, `1` matches any
        /// interface or process-destroyed message.
        msg_ids: Vec<u64>,
        /// Address of the id list in linear memory; the matched slot is
        /// zeroed on delivery.
        msg_ids_ptr: u32,
        /// Where to write the delivered frame.
        out_pointer: u32,
        /// Size of the buffer at `out_pointer`.
        out_size: u32,
        /// Whether to park the thread when no message matches.
        block: bool,
    },
    /// Blocked in `emit_message` until a handler registers the interface.
    EmitPending {
        /// Interface the message is to be emitted on.
        interface: InterfaceHash,
        /// Id allocated for the emission, if an answer is expected.
        message_id: Option<MessageId>,
        /// Where to write the id once the emission goes through.
        message_id_write: Option<u32>,
        /// The message body, delivered once a handler registers.
        message: EncodedMessage,
    },
    /// Interrupted on an extrinsic call that is being processed right now.
    InFlightEmit,
}

/// A thread of a live process.
#[derive(Debug)]
pub struct Thread {
    /// Identifier of the thread.
    pub tid: ThreadId,
    /// The process the thread belongs to.
    pub pid: Pid,
    /// Current state.
    pub state: ThreadState,
}

/// Per-process state tracked by the core.
#[derive(Debug)]
pub struct Process {
    /// Identifier of the process.
    pub pid: Pid,
    /// Messages pending delivery to a thread of this process, oldest first.
    pub messages_queue: Vec<KernelMessage>,
    /// Interfaces this process currently handles.
    pub registered_interfaces: Vec<InterfaceHash>,
    /// Interfaces this process has emitted on; their handlers are notified
    /// when this process dies.
    pub used_interfaces: Vec<InterfaceHash>,
    /// Messages this process emitted that still await a response.
    pub emitted_messages: Vec<MessageId>,
    /// Messages this process received and still owes an answer to.
    pub messages_to_answer: Vec<MessageId>,
}

/// A message queued on an interface that has no handler yet.
#[derive(Debug)]
pub struct QueuedPendingMessage {
    /// The process that emitted the message.
    pub emitter_pid: Pid,
    /// Id of the message if it expects an answer.
    pub message_id: Option<MessageId>,
    /// The message body.
    pub message: EncodedMessage,
}

/// Which way an interface is handled.
#[derive(Debug)]
pub enum InterfaceState {
    /// A process handles the interface.
    Process(Pid),
    /// No handler yet, but threads or messages wait for one.
    Requested {
        /// Threads blocked in `EmitPending` on this interface.
        threads: Vec<ThreadId>,
        /// Messages from reserved-pid emitters waiting for a handler.
        other: Vec<QueuedPendingMessage>,
    },
}

/// An operation the driver must perform on the execution engine.
#[derive(Debug)]
pub enum CoreAction {
    /// Write `data` into the linear memory of the process owning `tid`.
    WriteMemory {
        /// Thread whose process memory is written.
        tid: ThreadId,
        /// Address of the write.
        address: u32,
        /// Bytes to write.
        data: Vec<u8>,
    },
    /// Resume `tid`, handing it `value` as the extrinsic's return value.
    Resume {
        /// Thread to resume.
        tid: ThreadId,
        /// Return value; `None` for extrinsics that return nothing.
        value: Option<u32>,
    },
}

/// Event surfaced to the outer run loop.
#[derive(Debug)]
pub enum CoreRunOutcome {
    /// A program was destroyed; lists what was cleaned up.
    ProgramFinished {
        /// The destroyed process.
        pid: Pid,
        /// Messages the process still owed answers to; an `Err` response has
        /// already been delivered to each emitter.
        unhandled_messages: Vec<MessageId>,
        /// Messages the process had emitted; their response entries are gone.
        cancelled_messages: Vec<MessageId>,
        /// Interfaces the process had registered and that are now free.
        unregistered_interfaces: Vec<InterfaceHash>,
    },
    /// A thread emitted on an unregistered interface and is now parked.
    ThreadWaitUnavailableInterface {
        /// The parked thread.
        tid: ThreadId,
        /// The interface it wants to emit on.
        interface: InterfaceHash,
    },
    /// A message was emitted on an interface handled by a reserved pid.
    ReservedPidInterfaceMessage {
        /// The emitter.
        pid: Pid,
        /// Id of the message if it expects an answer.
        message_id: Option<MessageId>,
        /// The interface the message was emitted on.
        interface: InterfaceHash,
        /// The message body.
        message: EncodedMessage,
    },
    /// The response to a message emitted on behalf of a reserved pid.
    MessageResponse {
        /// Id of the answered message.
        message_id: MessageId,
        /// The response body.
        response: Result<EncodedMessage, ()>,
    },
    /// Nothing to report.
    Idle,
}

/// The IPC core.
pub struct Core {
    /// All live processes. Order carries no meaning; pids are unique.
    pub processes: Vec<Process>,
    /// All live threads. Order carries no meaning; tids are unique.
    pub threads: Vec<Thread>,
    /// The interface registry: at most one entry per interface hash.
    pub interfaces: Vec<(InterfaceHash, InterfaceState)>,
    /// Pids reserved for kernel-internal handlers; never used by a process.
    pub reserved_pids: Vec<Pid>,
    /// The outstanding-response table: message id to emitter.
    pub messages_to_answer: Vec<(MessageId, Pid)>,
    /// Pool of random identifiers.
    pub id_pool: IdPool,
    /// Events not yet handed to the run loop, oldest first.
    pub pending_events: Vec<CoreRunOutcome>,
}

impl Core {
    /// A process with this pid is alive.
    pub open spec fn is_live_pid(self, pid: Pid) -> bool {
        exists|i: int| 0 <= i < self.processes@.len() && self.processes@[i].pid == pid
    }

    /// Index of the process with this pid.
    pub open spec fn proc_index_of(self, pid: Pid) -> int {
        choose|i: int| 0 <= i < self.processes@.len() && self.processes@[i].pid == pid
    }

    /// The process with this pid.
    pub open spec fn proc_of(self, pid: Pid) -> Process {
        self.processes@[self.proc_index_of(pid)]
    }

    /// This pid is reserved for a kernel-internal handler.
    pub open spec fn is_reserved_pid(self, pid: Pid) -> bool {
        self.reserved_pids@.contains(pid)
    }

    /// A thread with this tid is alive.
    pub open spec fn is_live_tid(self, tid: ThreadId) -> bool {
        exists|i: int| 0 <= i < self.threads@.len() && self.threads@[i].tid == tid
    }

    /// Index of the thread with this tid.
    pub open spec fn thread_index_of(self, tid: ThreadId) -> int {
        choose|i: int| 0 <= i < self.threads@.len() && self.threads@[i].tid == tid
    }

    /// The thread with this tid.
    pub open spec fn thread_of(self, tid: ThreadId) -> Thread {
        self.threads@[self.thread_index_of(tid)]
    }

    /// The outstanding-response table has an entry for this id.
    pub open spec fn table_contains(self, id: MessageId) -> bool {
        exists|i: int|
            0 <= i < self.messages_to_answer@.len() && self.messages_to_answer@[i].0 == id
    }

    /// The emitter recorded for this id in the outstanding-response table.
    pub open spec fn table_emitter(self, id: MessageId) -> Pid {
        self.messages_to_answer@[choose|i: int|
            0 <= i < self.messages_to_answer@.len() && self.messages_to_answer@[i].0 == id].1
    }

    /// The registry has an entry for this interface.
    pub open spec fn registry_contains(self, h: Seq<u8>) -> bool {
        exists|i: int| 0 <= i < self.interfaces@.len() && self.interfaces@[i].0@ == h
    }

    /// Index of the registry entry for this interface.
    pub open spec fn registry_index_of(self, h: Seq<u8>) -> int {
        choose|i: int| 0 <= i < self.interfaces@.len() && self.interfaces@[i].0@ == h
    }

    /// The registry entry for this interface.
    pub open spec fn registry_state(self, h: Seq<u8>) -> InterfaceState {
        self.interfaces@[self.registry_index_of(h)].1
    }

    /// Process identifiers are unique, never reserved values, and disjoint
    /// from the reserved pids.
    pub open spec fn pids_wf(self) -> bool {
        &&& forall|i: int, j: int|
            0 <= i < j < self.processes@.len() ==> self.processes@[i].pid != self.processes@[j].pid
        &&& forall|i: int| 0 <= i < self.processes@.len() ==> (#[trigger] self.processes@[i]).pid.0 >= 2
        &&& forall|i: int|
            0 <= i < self.processes@.len() ==> !self.reserved_pids@.contains(
                (#[trigger] self.processes@[i]).pid,
            )
        &&& forall|i: int, j: int|
            0 <= i < j < self.reserved_pids@.len() ==> self.reserved_pids@[i]
                != self.reserved_pids@[j]
        &&& forall|i: int| 0 <= i < self.reserved_pids@.len() ==> (#[trigger] self.reserved_pids@[i]).0 >= 2
    }

    /// Thread identifiers are unique, each thread belongs to a live process,
    /// and parked states respect the machine limits.
    pub open spec fn threads_wf(self) -> bool {
        &&& forall|i: int, j: int|
            0 <= i < j < self.threads@.len() ==> self.threads@[i].tid != self.threads@[j].tid
        &&& forall|i: int| 0 <= i < self.threads@.len() ==> (#[trigger] self.threads@[i]).tid.0 >= 2
        &&& forall|i: int|
            0 <= i < self.threads@.len() ==> self.is_live_pid((#[trigger] self.threads@[i]).pid)
        &&& forall|i: int|
            0 <= i < self.threads@.len() ==> wf_thread_state((#[trigger] self.threads@[i]).state)
    }

    /// The registry maps each interface to at most one entry, and pending
    /// entries list exactly the live threads parked on that interface.
    pub open spec fn interfaces_wf(self) -> bool {
        &&& forall|i: int, j: int|
            0 <= i < j < self.interfaces@.len() ==> self.interfaces@[i].0@ != self.interfaces@[j].0@
        &&& forall|i: int|
            0 <= i < self.interfaces@.len() ==> ((#[trigger] self.interfaces@[i]).1 matches
            InterfaceState::Process(p) ==> self.is_live_pid(p) || self.is_reserved_pid(p))
        &&& forall|i: int, k: int|
            0 <= i < self.interfaces@.len() && 0 <= k < requested_threads(
                self.interfaces@[i].1,
            ).len() ==> {
                let t = #[trigger] requested_threads(self.interfaces@[i].1)[k];
                &&& self.is_live_tid(t)
                &&& is_emit_pending(self.thread_of(t).state)
                &&& emit_pending_interface(self.thread_of(t).state) == self.interfaces@[i].0@
            }
        &&& forall|i: int, k1: int, k2: int|
            0 <= i < self.interfaces@.len() && 0 <= k1 < k2 < requested_threads(
                self.interfaces@[i].1,
            ).len() ==> #[trigger] requested_threads(self.interfaces@[i].1)[k1]
                != #[trigger] requested_threads(self.interfaces@[i].1)[k2]
        &&& forall|i: int, k: int|
            0 <= i < self.interfaces@.len() && 0 <= k < requested_other(
                self.interfaces@[i].1,
            ).len() ==> wf_pending_message(
                #[trigger] requested_other(self.interfaces@[i].1)[k],
            )
        &&& forall|i: int|
            0 <= i < self.threads@.len() && is_emit_pending((#[trigger] self.threads@[i]).state)
                ==> {
                let h = emit_pending_interface(self.threads@[i].state);
                &&& self.registry_contains(h)
                &&& requested_threads(self.registry_state(h)).contains(self.threads@[i].tid)
            }
    }

    /// The outstanding-response table has unique keys, none of them a
    /// sentinel, and each emitter is a live process or a reserved pid.
    pub open spec fn table_wf(self) -> bool {
        &&& forall|i: int, j: int|
            0 <= i < j < self.messages_to_answer@.len() ==> self.messages_to_answer@[i].0
                != self.messages_to_answer@[j].0
        &&& forall|i: int|
            0 <= i < self.messages_to_answer@.len() ==> (#[trigger] self.messages_to_answer@[i]).0.0
                >= 2
        &&& forall|i: int|
            0 <= i < self.messages_to_answer@.len() ==> self.is_live_pid(
                (#[trigger] self.messages_to_answer@[i]).1,
            ) || self.is_reserved_pid(self.messages_to_answer@[i].1)
    }

    /// Every message a live process emitted is in the table under its pid,
    /// and every table entry owned by a live process is in its emitted list.
    pub open spec fn emitted_wf(self) -> bool {
        &&& forall|i: int, k: int|
            0 <= i < self.processes@.len() && 0 <= k < (
            #[trigger] self.processes@[i]).emitted_messages@.len() ==> self.table_contains(
                #[trigger] self.processes@[i].emitted_messages@[k],
            ) && self.table_emitter(self.processes@[i].emitted_messages@[k])
                == self.processes@[i].pid
        &&& forall|i: int, k1: int, k2: int|
            0 <= i < self.processes@.len() && 0 <= k1 < k2
                < self.processes@[i].emitted_messages@.len()
                ==> #[trigger] self.processes@[i].emitted_messages@[k1]
                != #[trigger] self.processes@[i].emitted_messages@[k2]
        &&& forall|j: int|
            0 <= j < self.messages_to_answer@.len() && self.is_live_pid(
                (#[trigger] self.messages_to_answer@[j]).1,
            ) ==> self.proc_of(self.messages_to_answer@[j].1).emitted_messages@.contains(
                self.messages_to_answer@[j].0,
            )
    }

    /// Every owed message of a live process is in the table, owed lists are
    /// duplicate-free and disjoint across processes.
    pub open spec fn owed_wf(self) -> bool {
        &&& forall|i: int, k: int|
            0 <= i < self.processes@.len() && 0 <= k < (
            #[trigger] self.processes@[i]).messages_to_answer@.len() ==> self.table_contains(
                #[trigger] self.processes@[i].messages_to_answer@[k],
            )
        &&& forall|i: int, k1: int, k2: int|
            0 <= i < self.processes@.len() && 0 <= k1 < k2
                < self.processes@[i].messages_to_answer@.len()
                ==> #[trigger] self.processes@[i].messages_to_answer@[k1]
                != #[trigger] self.processes@[i].messages_to_answer@[k2]
        &&& forall|i1: int, i2: int, k1: int, k2: int|
            0 <= i1 < self.processes@.len() && 0 <= i2 < self.processes@.len() && i1 != i2 && 0 <= k1
                < self.processes@[i1].messages_to_answer@.len() && 0 <= k2
                < self.processes@[i2].messages_to_answer@.len()
                ==> #[trigger] self.processes@[i1].messages_to_answer@[k1]
                != #[trigger] self.processes@[i2].messages_to_answer@[k2]
    }

    /// The thread at index `i` is parked on a pending emission with id `id`.
    pub open spec fn thread_pending_id(self, i: int, id: MessageId) -> bool {
        &&& 0 <= i < self.threads@.len()
        &&& emit_pending_id(self.threads@[i].state) == Some(id)
    }

    /// The registry entry at `ii` queues, at position `k`, a handlerless
    /// message with id `id`.
    pub open spec fn other_pending_id(self, ii: int, k: int, id: MessageId) -> bool {
        &&& 0 <= ii < self.interfaces@.len()
        &&& 0 <= k < requested_other(self.interfaces@[ii].1).len()
        &&& requested_other(self.interfaces@[ii].1)[k].message_id == Some(id)
    }

    /// Ids waiting on a handler (parked threads and queued handlerless
    /// messages) are in the table under their emitter, owed by nobody yet,
    /// and pairwise distinct.
    pub open spec fn pending_wf(self) -> bool {
        &&& forall|i: int, id: MessageId|
            #[trigger] self.thread_pending_id(i, id) ==> self.table_contains(id)
                && self.table_emitter(id) == self.threads@[i].pid && (forall|j: int|
                0 <= j < self.processes@.len()
                    ==> !(#[trigger] self.processes@[j]).messages_to_answer@.contains(id))
        &&& forall|i1: int, i2: int, id: MessageId|
            #[trigger] self.thread_pending_id(i1, id) && #[trigger] self.thread_pending_id(i2, id)
                ==> i1 == i2
        &&& forall|ii: int, k: int, id: MessageId|
            #[trigger] self.other_pending_id(ii, k, id) ==> self.table_contains(id)
                && self.table_emitter(id) == requested_other(
                self.interfaces@[ii].1,
            )[k].emitter_pid && self.is_reserved_pid(
                requested_other(self.interfaces@[ii].1)[k].emitter_pid,
            ) && (forall|j: int|
                0 <= j < self.processes@.len()
                    ==> !(#[trigger] self.processes@[j]).messages_to_answer@.contains(id))
        &&& forall|ii1: int, k1: int, ii2: int, k2: int, id: MessageId|
            #[trigger] self.other_pending_id(ii1, k1, id) && #[trigger] self.other_pending_id(
                ii2,
                k2,
                id,
            ) ==> ii1 == ii2 && k1 == k2
        &&& forall|i: int, ii: int, k: int, id: MessageId|
            #[trigger] self.thread_pending_id(i, id) ==> !(#[trigger] self.other_pending_id(
                ii,
                k,
                id,
            ))
    }

    /// Every queued message is well-formed.
    pub open spec fn queues_wf(self) -> bool {
        forall|i: int, k: int|
            0 <= i < self.processes@.len() && 0 <= k < (
            #[trigger] self.processes@[i]).messages_queue@.len() ==> wf_message(
                #[trigger] self.processes@[i].messages_queue@[k],
            )
    }

    /// The whole well-formedness invariant of the core.
    pub open spec fn wf(self) -> bool {
        &&& self.pids_wf()
        &&& self.threads_wf()
        &&& self.interfaces_wf()
        &&& self.table_wf()
        &&& self.emitted_wf()
        &&& self.owed_wf()
        &&& self.pending_wf()
        &&& self.queues_wf()
    }
}

/// The threads parked on an interface entry; empty for a handled entry.
pub open spec fn requested_threads(s: InterfaceState) -> Seq<ThreadId> {
    match s {
        InterfaceState::Requested { threads, .. } => threads@,
        InterfaceState::Process(_) => Seq::empty(),
    }
}

/// The messages queued on an interface entry; empty for a handled entry.
pub open spec fn requested_other(s: InterfaceState) -> Seq<QueuedPendingMessage> {
    match s {
        InterfaceState::Requested { other, .. } => other@,
        InterfaceState::Process(_) => Seq::empty(),
    }
}

/// The state is a pending-emission park.
pub open spec fn is_emit_pending(s: ThreadState) -> bool {
    s is EmitPending
}

/// The interface a pending emission waits for.
pub open spec fn emit_pending_interface(s: ThreadState) -> Seq<u8> {
    match s {
        ThreadState::EmitPending { interface, .. } => interface@,
        _ => Seq::empty(),
    }
}

/// The allocated id of a pending emission.
pub open spec fn emit_pending_id(s: ThreadState) -> Option<MessageId> {
    match s {
        ThreadState::EmitPending { message_id, .. } => message_id,
        _ => None,
    }
}

/// The body of a pending emission.
pub open spec fn emit_pending_payload(s: ThreadState) -> Seq<u8> {
    match s {
        ThreadState::EmitPending { message, .. } => message@,
        _ => Seq::empty(),
    }
}

/// The write-back address of a pending emission's id.
pub open spec fn emit_pending_ptr(s: ThreadState) -> Option<u32> {
    match s {
        ThreadState::EmitPending { message_id_write, .. } => message_id_write,
        _ => None,
    }
}

/// `acts` carries what flushing the parked emission of thread `t` owes the
/// engine: a resumption with `0`, preceded by the write-back of the
/// allocated id when one exists.
pub open spec fn flush_actions_for(c: Core, t: ThreadId, acts: Seq<CoreAction>) -> bool {
    let st = c.thread_of(t).state;
    &&& (exists|a: int|
        0 <= a < acts.len() && ((#[trigger] acts[a]) matches CoreAction::Resume {
            tid: t2,
            value,
        } && t2 == t && value == Some(0u32)))
    &&& (emit_pending_id(st) matches Some(id) ==> exists|a: int|
        0 <= a < acts.len() && ((#[trigger] acts[a]) matches CoreAction::WriteMemory {
            tid: t2,
            address,
            data,
        } && t2 == t && Some(address) == emit_pending_ptr(st) && data@ == crate::le::le_bytes_64(
            id.0,
        )))
}

/// The flush obligation survives appending further actions.
proof fn lemma_flush_actions_monotone(
    c: Core,
    t: ThreadId,
    a1: Seq<CoreAction>,
    a2: Seq<CoreAction>,
)
    requires
        flush_actions_for(c, t, a1),
        a1.len() <= a2.len(),
        a2.subrange(0, a1.len() as int) == a1,
    ensures
        flush_actions_for(c, t, a2),
{
    let a0 = choose|a0: int|
        0 <= a0 < a1.len() && ((#[trigger] a1[a0]) matches CoreAction::Resume { tid: t2, value }
            && t2 == t && value == Some(0u32));
    assert(a2[a0] == a1[a0]);
    match emit_pending_id(c.thread_of(t).state) {
        Some(id) => {
            let b0 = choose|b0: int|
                0 <= b0 < a1.len() && ((#[trigger] a1[b0]) matches CoreAction::WriteMemory {
                    tid: t2,
                    address,
                    data,
                } && t2 == t && Some(address) == emit_pending_ptr(c.thread_of(t).state) && data@
                    == crate::le::le_bytes_64(id.0));
            assert(a2[b0] == a1[b0]);
        },
        None => {},
    }
}

/// A message queued on a handlerless interface respects the machine limits.
pub open spec fn wf_pending_message(q: QueuedPendingMessage) -> bool {
    &&& q.message@.len() <= MAX_MESSAGE_BODY
    &&& (q.message_id matches Some(id) ==> id.0 >= 2)
}

/// A parked thread state respects the machine limits, and a pending emission
/// carries a well-formed message.
pub open spec fn wf_thread_state(s: ThreadState) -> bool {
    match s {
        ThreadState::WaitMessage { msg_ids, msg_ids_ptr, .. } => {
            &&& msg_ids@.len() <= MAX_MSG_IDS
            &&& msg_ids_ptr + 8 * msg_ids@.len() <= u32::MAX
        },
        ThreadState::EmitPending { message_id, message_id_write, message, .. } => {
            &&& message@.len() <= MAX_MESSAGE_BODY
            &&& (message_id matches Some(id) ==> id.0 >= 2)
            &&& (message_id is Some <==> message_id_write is Some)
        },
        _ => true,
    }
}

/// Bound on the size of the identifier tables a fresh id is drawn against.
/// Far beyond what fits in memory; it makes the fallback scan well-defined.
pub const MAX_ID_TABLE: usize = 0x1000_0000;

/// Number of random draws tried before falling back to a linear scan.
const FRESH_ID_DRAWS: usize = 16;

/// `true` exactly when `v` holds `x`.
fn contains_u64(v: &Vec<u64>, x: u64) -> (r: bool)
    ensures
        r == v@.contains(x),
{
    let mut i: usize = 0;
    while i < v.len()
        invariant
            i <= v@.len(),
            forall|j: int| 0 <= j < i ==> v@[j] != x,
        decreases v@.len() - i,
    {
        if v[i] == x {
            return true;
        }
        i += 1;
    }
    false
}

/// Some value in `[2, 2 + used.len()]` does not occur in `used`: that range
/// holds one more distinct value than `used` has entries.
proof fn lemma_fresh_id_exists(used: Seq<u64>)
    requires
        used.len() < MAX_ID_TABLE,
    ensures
        exists|j: int| 0 <= j <= used.len() && !(#[trigger] used.contains((2 + j) as u64)),
{
    broadcast use vstd::seq_lib::seq_to_set_is_finite;

    if !(exists|j: int| 0 <= j <= used.len() && !(#[trigger] used.contains((2 + j) as u64))) {
        assert(forall|j: int| 0 <= j <= used.len() ==> #[trigger] used.contains((2 + j) as u64));
        let n = used.len() as int;
        let used_ints = used.map_values(|v: u64| v as int);
        let c = vstd::set_lib::set_int_range(2, 2 + n + 1);
        vstd::set_lib::lemma_int_range(2, 2 + n + 1);
        assert forall|x: int| c.contains(x) implies used_ints.to_set().contains(x) by {
            let j = x - 2;
            assert(used.contains((2 + j) as u64));
            let k = choose|k: int| 0 <= k < used.len() && used[k] == (2 + j) as u64;
            assert(used_ints[k] == x);
            assert(used_ints.to_set().contains(used_ints[k]));
        }
        vstd::set_lib::lemma_len_subset(c, used_ints.to_set());
        used_ints.lemma_cardinality_of_set();
        assert(false);
    }
}

/// Draws an identifier that is at least `2` and does not occur in `used`.
/// Random draws are tried first; if they all collide, the smallest free
/// value is used instead.
fn fresh_id(pool: &mut IdPool, used: &Vec<u64>) -> (r: u64)
    requires
        used@.len() < MAX_ID_TABLE,
    ensures
        r >= 2,
        !used@.contains(r),
{
    let mut draws: usize = 0;
    while draws < FRESH_ID_DRAWS
        invariant
            used@.len() < MAX_ID_TABLE,
        decreases FRESH_ID_DRAWS - draws,
    {
        let candidate = pool.assign();
        if candidate >= 2 && !contains_u64(used, candidate) {
            return candidate;
        }
        draws += 1;
    }
    let n = used.len();
    let mut i: usize = 0;
    while i <= n
        invariant
            i <= n + 1,
            n == used@.len(),
            n < MAX_ID_TABLE,
            forall|j: int| 0 <= j < i ==> #[trigger] used@.contains((2 + j) as u64),
        decreases n + 1 - i,
    {
        let candidate: u64 = 2 + (i as u64);
        if !contains_u64(used, candidate) {
            return candidate;
        }
        i += 1;
    }
    proof {
        lemma_fresh_id_exists(used@);
    }
    2
}

/// Prototype for a [`Core`] under construction.
pub struct CoreBuilder {
    /// Pids put aside for kernel-internal handlers.
    pub reserved_pids: Vec<Pid>,
    /// Pool the reserved pids are drawn from; handed over to the core.
    pub id_pool: IdPool,
}

impl CoreBuilder {
    /// The reserved pids are unique and none is a sentinel.
    pub open spec fn wf(self) -> bool {
        &&& forall|i: int, j: int|
            0 <= i < j < self.reserved_pids@.len() ==> self.reserved_pids@[i]
                != self.reserved_pids@[j]
        &&& forall|i: int| 0 <= i < self.reserved_pids@.len() ==> (#[trigger] self.reserved_pids@[i]).0 >= 2
    }

    /// Allocates a `Pid` that will never be used by any process.
    pub fn reserve_pid(&mut self) -> (r: Pid)
        requires
            old(self).wf(),
            old(self).reserved_pids@.len() < MAX_ID_TABLE,
        ensures
            final(self).wf(),
            r.0 >= 2,
            !old(self).reserved_pids@.contains(r),
            final(self).reserved_pids@ == old(self).reserved_pids@.push(r),
    {
        let mut used: Vec<u64> = Vec::new();
        let mut i: usize = 0;
        while i < self.reserved_pids.len()
            invariant
                i <= self.reserved_pids@.len(),
                used@.len() == i,
                forall|j: int| 0 <= j < i ==> used@[j] == self.reserved_pids@[j].0,
            decreases self.reserved_pids@.len() - i,
        {
            used.push(self.reserved_pids[i].0);
            i += 1;
        }
        let raw = fresh_id(&mut self.id_pool, &used);
        let pid = Pid(raw);
        proof {
            assert forall|k: int|
                0 <= k < self.reserved_pids@.len() implies self.reserved_pids@[k] != pid by {
                assert(used@[k] == self.reserved_pids@[k].0);
            }
        }
        self.reserved_pids.push(pid);
        pid
    }

    /// Turns the builder into a [`Core`].
    pub fn build(self) -> (r: Core)
        requires
            self.wf(),
        ensures
            r.wf(),
            r.reserved_pids@ == self.reserved_pids@,
            r.processes@.len() == 0,
            r.threads@.len() == 0,
            r.interfaces@.len() == 0,
            r.messages_to_answer@.len() == 0,
            r.pending_events@.len() == 0,
    {
        Core {
            processes: Vec::new(),
            threads: Vec::new(),
            interfaces: Vec::new(),
            reserved_pids: self.reserved_pids,
            messages_to_answer: Vec::new(),
            id_pool: self.id_pool,
            pending_events: Vec::new(),
        }
    }
}

impl Core {
    /// Starts building a core.
    pub fn new() -> (r: CoreBuilder)
        ensures
            r.wf(),
            r.reserved_pids@.len() == 0,
    {
        CoreBuilder { reserved_pids: Vec::new(), id_pool: IdPool::new() }
    }

    /// Creates a process with a fresh pid and its main thread, paused at the
    /// program's entry point. The caller instantiates the module in the
    /// execution engine under the returned pid.
    pub fn execute(&mut self) -> (r: (Pid, ThreadId))
        requires
            old(self).wf(),
            old(self).processes@.len() + old(self).reserved_pids@.len() < MAX_ID_TABLE,
            old(self).threads@.len() < MAX_ID_TABLE,
        ensures
            final(self).wf(),
            r.0.0 >= 2 && !old(self).is_live_pid(r.0) && !old(self).is_reserved_pid(r.0),
            r.1.0 >= 2 && !old(self).is_live_tid(r.1),
            final(self).processes@.len() == old(self).processes@.len() + 1,
            final(self).processes@.last().pid == r.0,
            final(self).processes@.last().messages_queue@.len() == 0,
            final(self).processes@.last().registered_interfaces@.len() == 0,
            final(self).processes@.last().used_interfaces@.len() == 0,
            final(self).processes@.last().emitted_messages@.len() == 0,
            final(self).processes@.last().messages_to_answer@.len() == 0,
            final(self).processes@ == old(self).processes@.push(final(self).processes@.last()),
            final(self).threads@ == old(self).threads@.push(final(self).threads@.last()),
            final(self).threads@.last().tid == r.1 && final(self).threads@.last().pid == r.0
                && final(self).threads@.last().state is Runnable,
            final(self).interfaces@ == old(self).interfaces@,
            final(self).reserved_pids@ == old(self).reserved_pids@,
            final(self).messages_to_answer@ == old(self).messages_to_answer@,
            final(self).pending_events@ == old(self).pending_events@,
    {
        let ghost pre = *self;
        let mut used: Vec<u64> = Vec::new();
        let mut i: usize = 0;
        while i < self.processes.len()
            invariant
                i <= self.processes@.len(),
                used@.len() == i,
                forall|j: int| 0 <= j < i ==> used@[j] == self.processes@[j].pid.0,
            decreases self.processes@.len() - i,
        {
            used.push(self.processes[i].pid.0);
            i += 1;
        }
        let n_procs = self.processes.len();
        let mut i: usize = 0;
        while i < self.reserved_pids.len()
            invariant
                i <= self.reserved_pids@.len(),
                n_procs == self.processes@.len(),
                used@.len() == n_procs + i,
                forall|j: int| 0 <= j < n_procs ==> used@[j] == self.processes@[j].pid.0,
                forall|j: int| 0 <= j < i ==> used@[n_procs + j] == self.reserved_pids@[j].0,
            decreases self.reserved_pids@.len() - i,
        {
            used.push(self.reserved_pids[i].0);
            i += 1;
        }
        let pid = Pid(fresh_id(&mut self.id_pool, &used));
        proof {
            assert forall|k: int|
                0 <= k < self.processes@.len() implies self.processes@[k].pid != pid by {
                assert(used@[k] == self.processes@[k].pid.0);
            }
            assert forall|k: int|
                0 <= k < self.reserved_pids@.len() implies self.reserved_pids@[k] != pid by {
                assert(used@[n_procs + k] == self.reserved_pids@[k].0);
            }
        }

        let mut tids: Vec<u64> = Vec::new();
        let mut i: usize = 0;
        while i < self.threads.len()
            invariant
                i <= self.threads@.len(),
                tids@.len() == i,
                forall|j: int| 0 <= j < i ==> tids@[j] == self.threads@[j].tid.0,
            decreases self.threads@.len() - i,
        {
            tids.push(self.threads[i].tid.0);
            i += 1;
        }
        let tid = ThreadId(fresh_id(&mut self.id_pool, &tids));
        proof {
            assert forall|k: int|
                0 <= k < self.threads@.len() implies self.threads@[k].tid != tid by {
                assert(tids@[k] == self.threads@[k].tid.0);
            }
        }

        self.processes.push(
            Process {
                pid,
                messages_queue: Vec::new(),
                registered_interfaces: Vec::new(),
                used_interfaces: Vec::new(),
                emitted_messages: Vec::new(),
                messages_to_answer: Vec::new(),
            },
        );
        self.threads.push(Thread { tid, pid, state: ThreadState::Runnable });
        proof {
            lemma_push_process_thread(pre, *self, pid, tid);
        }
        (pid, tid)
    }
}

impl Core {
    /// Registers `process` as the handler of `interface`.
    ///
    /// Fails if the pid is neither a live process nor a reserved pid, or if
    /// the interface already has a handler: an interface may be registered
    /// only once. On success, messages and threads that were waiting for
    /// this interface are flushed to the new handler: queued handlerless
    /// messages first, then the parked emitters in order, each resumed with
    /// `0` after its message id (if any) is written back. The driver then
    /// wakes the handler with [`Core::wake_process`].
    #[verifier::rlimit(100)]
    #[verifier::spinoff_prover]
    pub fn set_interface_handler(&mut self, interface: InterfaceHash, process: Pid) -> (r: (
        Result<(), ()>,
        Vec<CoreAction>,
    ))
        requires
            old(self).wf(),
        ensures
            final(self).wf(),
            final(self).reserved_pids@ == old(self).reserved_pids@,
            final(self).messages_to_answer@ == old(self).messages_to_answer@,
            final(self).threads@.len() == old(self).threads@.len(),
            final(self).processes@.len() == old(self).processes@.len(),
            r.0 is Ok <==> (old(self).is_live_pid(process) || old(self).is_reserved_pid(process))
                && !(old(self).handler_of(interface@) is Some),
            r.0 is Err ==> final(self).interfaces@ == old(self).interfaces@ && final(self).processes@ == old(self).processes@ && final(self).threads@ == old(self).threads@
                && final(self).pending_events@ == old(self).pending_events@ && r.1@.len() == 0,
            r.0 is Ok ==> final(self).handler_of(interface@) == Some(process),
            r.0 is Ok ==> forall|h2: Seq<u8>|
                #[trigger] old(self).registry_contains(h2) && h2 != interface@ ==> final(self).registry_contains(h2) && final(self).registry_state(h2) == old(self).registry_state(h2),
            r.0 is Ok ==> forall|i: int|
                0 <= i < old(self).threads@.len() ==> (#[trigger] final(self).threads@[i]).tid
                    == old(self).threads@[i].tid && final(self).threads@[i].pid == old(self).threads@[i].pid,
            forall|j: int|
                0 <= j < old(self).processes@.len() ==> (#[trigger] final(self).processes@[j]).pid
                    == old(self).processes@[j].pid,
            r.0 is Ok && old(self).registry_contains(interface@) ==> forall|k: int|
                0 <= k < requested_threads(old(self).registry_state(interface@)).len() ==> final(self).thread_of(
                    #[trigger] requested_threads(old(self).registry_state(interface@))[k],
                ).state is Runnable,
            r.0 is Ok && old(self).is_live_pid(process) ==> {
                let oldq = old(self).proc_of(process).messages_queue@;
                let newq = final(self).proc_of(process).messages_queue@;
                &&& newq.len() >= oldq.len()
                &&& newq.subrange(0, oldq.len() as int) == oldq
                &&& (old(self).registry_contains(interface@) ==> newq.len() == oldq.len()
                    + requested_other(old(self).registry_state(interface@)).len()
                    + requested_threads(old(self).registry_state(interface@)).len())
                &&& (!old(self).registry_contains(interface@) ==> newq == oldq)
                &&& forall|k: int|
                    oldq.len() <= k < newq.len() ==> (#[trigger] newq[k] matches
                    KernelMessage::Interface { interface: i2, .. } && i2@ == interface@)
            },
            r.0 is Ok && old(self).is_live_pid(process) && old(self).registry_contains(interface@)
                ==> ({
                let oldq = old(self).proc_of(process).messages_queue@;
                let newq = final(self).proc_of(process).messages_queue@;
                let others = requested_other(old(self).registry_state(interface@));
                let waiting = requested_threads(old(self).registry_state(interface@));
                &&& (forall|k: int|
                    0 <= k < others.len() ==> (#[trigger] newq[oldq.len() + k] matches
                    KernelMessage::Interface { interface: i2, message_id: m2, emitter_pid: e2, actual_data: d2 } && i2@ == interface@ && m2 == others[k].message_id && e2 == others[k].emitter_pid && d2@ == others[k].message@))
                &&& (forall|k: int|
                    0 <= k < waiting.len() ==> (#[trigger] newq[oldq.len() + others.len() + k] matches
                    KernelMessage::Interface { interface: i2, message_id: m2, emitter_pid: e2, actual_data: d2 } && i2@ == interface@ && m2 == emit_pending_id(old(self).thread_of(waiting[k]).state) && e2 == old(self).thread_of(waiting[k]).pid && d2@ == emit_pending_payload(old(self).thread_of(waiting[k]).state)))
            }),
            r.0 is Ok && old(self).registry_contains(interface@) ==> forall|k: int|
                0 <= k < requested_threads(old(self).registry_state(interface@)).len()
                    ==> flush_actions_for(
                    *old(self),
                    #[trigger] requested_threads(old(self).registry_state(interface@))[k],
                    r.1@,
                ),
            r.0 is Ok ==> forall|i: int, id: MessageId|
                #[trigger] final(self).thread_pending_id(i, id) ==> old(self).thread_pending_id(i, id),
            r.0 is Ok ==> forall|ii: int, k: int, id: MessageId|
                #[trigger] final(self).other_pending_id(ii, k, id) ==> exists|k2: int|
                    old(self).other_pending_id(ii, k2, id),
            r.0 is Ok ==> forall|i: int|
                0 <= i < old(self).threads@.len() ==> ((#[trigger] final(self).threads@[i]) == old(self).threads@[i] || final(self).threads@[i].state is Runnable),
            final(self).pending_events@.len() >= old(self).pending_events@.len(),
            final(self).pending_events@.subrange(0, old(self).pending_events@.len() as int) == old(self).pending_events@,
    {
        let ghost h = interface@;
        let live = match self.find_process_index(process) {
            Some(_) => true,
            None => false,
        };
        let valid = if live {
            true
        } else {
            pid_in_vec(&self.reserved_pids, process)
        };
        if !valid {
            proof {
                assert(self.pending_events@.subrange(0, self.pending_events@.len() as int)
                    =~= self.pending_events@);
            }
            return (Err(()), Vec::new());
        }
        let mut actions: Vec<CoreAction> = Vec::new();
        let ri = match self.find_interface_index(&interface) {
            None => {
                let ghost s1 = *self;
                self.interfaces.push((interface, InterfaceState::Process(process)));
                proof {
                    assert(self.interfaces@ =~= s1.interfaces@.push(self.interfaces@.last()));
                    lemma_set_handler_entry(s1, *self, 0, true, process);
                    lemma_registry_lookup_push(s1, *self);
                    assert(self.pending_events@.subrange(0, self.pending_events@.len() as int)
                        =~= self.pending_events@);
                    assert forall|i2: int, id: MessageId|
                        #[trigger] self.thread_pending_id(i2, id) implies s1.thread_pending_id(
                        i2,
                        id,
                    ) by {}
                    assert forall|ii: int, k: int, id: MessageId|
                        #[trigger] self.other_pending_id(ii, k, id) implies exists|k2: int|
                        s1.other_pending_id(ii, k2, id) by {
                        if ii == s1.interfaces@.len() as int {
                            assert(requested_other(self.interfaces@[ii].1).len() == 0);
                        } else {
                            assert(self.interfaces@[ii] == s1.interfaces@[ii]);
                            assert(s1.other_pending_id(ii, k, id));
                        }
                    }
                }
                return (Ok(()), actions);
            },
            Some(ri) => ri,
        };
        let is_requested = match &self.interfaces[ri].1 {
            InterfaceState::Requested { .. } => true,
            InterfaceState::Process(_) => false,
        };
        proof {
            lemma_registry_index_unique(*self, ri as int);
        }
        if !is_requested {
            proof {
                assert(self.pending_events@.subrange(0, self.pending_events@.len() as int)
                    =~= self.pending_events@);
            }
            return (Err(()), actions);
        }

        let ghost start = *self;
        let ghost old_other = requested_other(start.interfaces@[ri as int].1);
        let ghost old_waiting = requested_threads(start.interfaces@[ri as int].1);
        let ghost oldq: Seq<KernelMessage> = if start.is_live_pid(process) {
            start.proc_of(process).messages_queue@
        } else {
            Seq::empty()
        };

        // Flush the messages that were queued while no handler existed.
        let n_other = match &self.interfaces[ri].1 {
            InterfaceState::Requested { other, .. } => other.len(),
            InterfaceState::Process(_) => 0,
        };
        let mut oi: usize = 0;
        while oi < n_other
            invariant
                self.wf(),
                live == start.is_live_pid(process),
                start.wf(),
                oi <= n_other,
                0 <= ri < self.interfaces@.len(),
                n_other == old_other.len(),
                self.interfaces@[ri as int].0@ == h,
                self.interfaces@[ri as int].1 is Requested,
                requested_other(self.interfaces@[ri as int].1) == old_other.subrange(
                    oi as int,
                    n_other as int,
                ),
                requested_threads(self.interfaces@[ri as int].1) == old_waiting,
                self.reserved_pids@ == start.reserved_pids@,
                self.messages_to_answer@ == start.messages_to_answer@,
                self.threads@ == start.threads@,
                self.processes@.len() == start.processes@.len(),
                forall|j: int|
                    0 <= j < start.processes@.len() && start.processes@[j].pid != process
                        ==> self.processes@[j] == start.processes@[j],
                forall|j: int|
                    0 <= j < start.processes@.len() ==> (#[trigger] self.processes@[j]).pid
                        == start.processes@[j].pid,
                start.is_live_pid(process) ==> {
                    let newq = self.proc_of(process).messages_queue@;
                    &&& self.proc_index_of(process) == start.proc_index_of(process)
                    &&& self.proc_of(process).pid == process
                    &&& newq.len() == oldq.len() + oi
                    &&& newq.subrange(0, oldq.len() as int) == oldq
                    &&& forall|k: int|
                        oldq.len() <= k < newq.len() ==> (#[trigger] newq[k] matches
                        KernelMessage::Interface { interface: i2, .. } && i2@ == h)
                    &&& forall|k2: int|
                        0 <= k2 < oi ==> (#[trigger] newq[oldq.len() + k2] matches
                        KernelMessage::Interface { interface: i2, message_id: m2, emitter_pid: e2, actual_data: d2 } && i2@ == h && m2 == old_other[k2].message_id && e2 == old_other[k2].emitter_pid && d2@ == old_other[k2].message@)
                },
                forall|h2: Seq<u8>|
                    #[trigger] start.registry_contains(h2) && h2 != h ==> self.registry_contains(
                        h2,
                    ) && self.registry_state(h2) == start.registry_state(h2),
                self.interfaces@.len() == start.interfaces@.len(),
                forall|i2: int|
                    0 <= i2 < start.interfaces@.len() && i2 != ri ==> (#[trigger] self.interfaces@[i2]) == start.interfaces@[i2],
                self.registry_index_of(h) == ri as int,
                self.registry_contains(h),
                self.registry_state(h) == self.interfaces@[ri as int].1,
                self.pending_events@.len() >= start.pending_events@.len(),
                self.pending_events@.subrange(0, start.pending_events@.len() as int)
                    == start.pending_events@,
            decreases n_other - oi,
        {
            let ghost pre = *self;
            let (key, st) = self.interfaces.remove(ri);
            let (q0, new_st) = match st {
                InterfaceState::Requested { threads, mut other } => {
                    let q0 = other.remove(0);
                    (q0, InterfaceState::Requested { threads, other })
                },
                InterfaceState::Process(_) => {
                    proof {
                        assert(false);
                    }
                    (
                        QueuedPendingMessage {
                            emitter_pid: Pid(0),
                            message_id: None,
                            message: EncodedMessage(Vec::new()),
                        },
                        InterfaceState::Process(Pid(0)),
                    )
                },
            };
            let key_copy = key.clone();
            self.interfaces.insert(ri, (key, new_st));
            proof {
                assert(self.interfaces@ =~= pre.interfaces@.update(
                    ri as int,
                    self.interfaces@[ri as int],
                ));
                assert(requested_other(self.interfaces@[ri as int].1) =~= requested_other(
                    pre.interfaces@[ri as int].1,
                ).remove(0));
                assert(q0 == old_other[oi as int]);
                lemma_unqueue_other(pre, *self, ri as int);
                lemma_registry_lookup_update(pre, *self, ri as int);
                assert(requested_other(self.interfaces@[ri as int].1) =~= old_other.subrange(
                    oi + 1 as int,
                    n_other as int,
                ));
                assert(wf_pending_message(requested_other(pre.interfaces@[ri as int].1)[0]));
            }
            let ghost mid1 = *self;
            if live {
                let hpi = match self.find_process_index(process) {
                    Some(i) => i,
                    None => {
                        proof {
                            assert(false);
                        }
                        0
                    },
                };
                proof {
                    lemma_proc_index_unique(*self, hpi as int);
                }
                let mut hproc = self.processes.remove(hpi);
                hproc.messages_queue.push(
                    KernelMessage::Interface {
                        interface: key_copy,
                        message_id: q0.message_id,
                        emitter_pid: q0.emitter_pid,
                        actual_data: q0.message,
                    },
                );
                match q0.message_id {
                    Some(id) => {
                        hproc.messages_to_answer.push(id);
                    },
                    None => {},
                }
                self.processes.insert(hpi, hproc);
                proof {
                    assert(self.processes@ =~= mid1.processes@.update(
                        hpi as int,
                        self.processes@[hpi as int],
                    ));
                    assert forall|k: int|
                        0 <= k
                            < self.processes@[hpi as int].messages_queue@.len() implies wf_message(
                        #[trigger] self.processes@[hpi as int].messages_queue@[k],
                    ) by {
                        if k < mid1.processes@[hpi as int].messages_queue@.len() {
                            assert(self.processes@[hpi as int].messages_queue@[k]
                                == mid1.processes@[hpi as int].messages_queue@[k]);
                            assert(wf_message(mid1.processes@[hpi as int].messages_queue@[k]));
                        }
                    }
                    match q0.message_id {
                        Some(id) => {
                            assert(pre.other_pending_id(ri as int, 0, id));
                            assert(mid1.table_contains(id));
                            assert forall|j: int|
                                0 <= j < mid1.processes@.len() implies !(
                            #[trigger] mid1.processes@[j]).messages_to_answer@.contains(id) by {
                                assert(!pre.processes@[j].messages_to_answer@.contains(id));
                            }
                            assert forall|i: int| !(#[trigger] mid1.thread_pending_id(i, id)) by {
                                if mid1.thread_pending_id(i, id) {
                                    assert(pre.thread_pending_id(i, id));
                                }
                            }
                            assert forall|ii: int, k: int| !(#[trigger] mid1.other_pending_id(
                                ii,
                                k,
                                id,
                            )) by {
                                if mid1.other_pending_id(ii, k, id) {
                                    let ghost ok: int = if ii == ri as int {
                                        k + 1
                                    } else {
                                        k
                                    };
                                    assert(pre.other_pending_id(ii, ok, id)) by {
                                        if ii == ri as int {
                                            assert(requested_other(mid1.interfaces@[ii].1)[k]
                                                == requested_other(pre.interfaces@[ii].1)[ok]);
                                        }
                                    }
                                }
                            }
                            lemma_enqueue_with_owed(mid1, *self, hpi as int, id);
                        },
                        None => {
                            lemma_update_process_queue(mid1, *self, hpi as int);
                        },
                    }
                    lemma_proc_index_unique(*self, hpi as int);
                    lemma_registry_index_unique(*self, ri as int);
                }
            } else {
                let ghost mid2 = *self;
                self.pending_events.push(
                    CoreRunOutcome::ReservedPidInterfaceMessage {
                        pid: q0.emitter_pid,
                        message_id: q0.message_id,
                        interface: key_copy,
                        message: q0.message,
                    },
                );
                proof {
                    lemma_wf_same_tables(mid2, *self);
                    assert(self.pending_events@.subrange(0, start.pending_events@.len() as int)
                        =~= start.pending_events@);
                    lemma_registry_index_unique(*self, ri as int);
                }
            }
            proof {
                assert forall|h2: Seq<u8>|
                    #[trigger] start.registry_contains(h2) && h2 != h implies self.registry_contains(h2)
                    && self.registry_state(h2) == start.registry_state(h2) by {
                    assert(pre.registry_contains(h2) && pre.registry_state(h2)
                        == start.registry_state(h2));
                    let j = pre.registry_index_of(h2);
                    lemma_registry_index_unique(pre, j);
                    assert(j != ri);
                    assert(self.interfaces@[j].0@ == h2);
                    lemma_registry_index_unique(*self, j);
                }
                assert forall|i2: int|
                    0 <= i2 < start.interfaces@.len() && i2 != ri implies (
                #[trigger] self.interfaces@[i2]) == start.interfaces@[i2] by {
                    assert(self.interfaces@[i2] == pre.interfaces@[i2]);
                }
            }
            oi += 1;
        }

        // Flush the threads that were parked emitting on this interface.
        let n_waiting = match &self.interfaces[ri].1 {
            InterfaceState::Requested { threads, .. } => threads.len(),
            InterfaceState::Process(_) => 0,
        };
        let mut wi: usize = 0;
        while wi < n_waiting
            invariant
                self.wf(),
                live == start.is_live_pid(process),
                start.wf(),
                wi <= n_waiting,
                0 <= ri < self.interfaces@.len(),
                n_waiting == old_waiting.len(),
                n_other == old_other.len(),
                self.interfaces@[ri as int].0@ == h,
                self.interfaces@[ri as int].1 is Requested,
                requested_other(self.interfaces@[ri as int].1).len() == 0,
                requested_threads(self.interfaces@[ri as int].1) == old_waiting.subrange(
                    wi as int,
                    n_waiting as int,
                ),
                self.reserved_pids@ == start.reserved_pids@,
                self.messages_to_answer@ == start.messages_to_answer@,
                self.threads@.len() == start.threads@.len(),
                forall|i: int|
                    0 <= i < start.threads@.len() ==> (#[trigger] self.threads@[i]).tid
                        == start.threads@[i].tid && self.threads@[i].pid == start.threads@[i].pid,
                forall|i2: int|
                    0 <= i2 < start.threads@.len() ==> ((#[trigger] self.threads@[i2])
                        == start.threads@[i2] || (start.threads@[i2].state is EmitPending
                        && self.threads@[i2].state is Runnable)),
                forall|k: int|
                    0 <= k < wi ==> self.is_live_tid(#[trigger] old_waiting[k]) && self.thread_of(
                        old_waiting[k],
                    ).state is Runnable,
                forall|k2: int|
                    0 <= k2 < wi ==> flush_actions_for(start, #[trigger] old_waiting[k2], actions@),
                self.processes@.len() == start.processes@.len(),
                forall|j: int|
                    0 <= j < start.processes@.len() && start.processes@[j].pid != process
                        ==> self.processes@[j] == start.processes@[j],
                forall|j: int|
                    0 <= j < start.processes@.len() ==> (#[trigger] self.processes@[j]).pid
                        == start.processes@[j].pid,
                start.is_live_pid(process) ==> {
                    let newq = self.proc_of(process).messages_queue@;
                    &&& self.proc_index_of(process) == start.proc_index_of(process)
                    &&& self.proc_of(process).pid == process
                    &&& newq.len() == oldq.len() + n_other + wi
                    &&& newq.subrange(0, oldq.len() as int) == oldq
                    &&& forall|k: int|
                        oldq.len() <= k < newq.len() ==> (#[trigger] newq[k] matches
                        KernelMessage::Interface { interface: i2, .. } && i2@ == h)
                    &&& forall|k2: int|
                        0 <= k2 < n_other ==> (#[trigger] newq[oldq.len() + k2] matches
                        KernelMessage::Interface { interface: i2, message_id: m2, emitter_pid: e2, actual_data: d2 } && i2@ == h && m2 == old_other[k2].message_id && e2 == old_other[k2].emitter_pid && d2@ == old_other[k2].message@)
                    &&& forall|k2: int|
                        0 <= k2 < wi ==> (#[trigger] newq[oldq.len() + n_other + k2] matches
                        KernelMessage::Interface { interface: i2, message_id: m2, emitter_pid: e2, actual_data: d2 } && i2@ == h && m2 == emit_pending_id(start.thread_of(old_waiting[k2]).state) && e2 == start.thread_of(old_waiting[k2]).pid && d2@ == emit_pending_payload(start.thread_of(old_waiting[k2]).state))
                },
                forall|h2: Seq<u8>|
                    #[trigger] start.registry_contains(h2) && h2 != h ==> self.registry_contains(
                        h2,
                    ) && self.registry_state(h2) == start.registry_state(h2),
                self.interfaces@.len() == start.interfaces@.len(),
                forall|i2: int|
                    0 <= i2 < start.interfaces@.len() && i2 != ri ==> (#[trigger] self.interfaces@[i2]) == start.interfaces@[i2],
                self.registry_index_of(h) == ri as int,
                self.registry_contains(h),
                self.registry_state(h) == self.interfaces@[ri as int].1,
                self.pending_events@.len() >= start.pending_events@.len(),
                self.pending_events@.subrange(0, start.pending_events@.len() as int)
                    == start.pending_events@,
            decreases n_waiting - wi,
        {
            let ghost pre = *self;
            let tid0 = match &self.interfaces[ri].1 {
                InterfaceState::Requested { threads, .. } => threads[0],
                InterfaceState::Process(_) => {
                    proof {
                        assert(false);
                    }
                    ThreadId(0)
                },
            };
            proof {
                assert(tid0 == requested_threads(pre.interfaces@[ri as int].1)[0]);
                assert(pre.is_live_tid(tid0));
            }
            let tj = match self.find_thread_index(tid0) {
                Some(i) => i,
                None => {
                    proof {
                        assert(false);
                    }
                    0
                },
            };
            proof {
                lemma_thread_index_unique(*self, tj as int);
                assert(is_emit_pending(pre.threads@[tj as int].state));
                assert(emit_pending_interface(pre.threads@[tj as int].state) == h);
            }
            let mut t = self.threads.remove(tj);
            let st = t.state;
            t.state = ThreadState::Runnable;
            self.threads.insert(tj, t);
            let (pmid, pwrite, pmsg) = match st {
                ThreadState::EmitPending { message_id, message_id_write, message, .. } => (
                    message_id,
                    message_id_write,
                    message,
                ),
                _ => {
                    proof {
                        assert(false);
                    }
                    (None, None, EncodedMessage(Vec::new()))
                },
            };
            let (key, st2) = self.interfaces.remove(ri);
            let key_copy = key.clone();
            let new_st = match st2 {
                InterfaceState::Requested { mut threads, other } => {
                    threads.remove(0);
                    InterfaceState::Requested { threads, other }
                },
                InterfaceState::Process(_) => {
                    proof {
                        assert(false);
                    }
                    InterfaceState::Process(Pid(0))
                },
            };
            self.interfaces.insert(ri, (key, new_st));
            proof {
                assert(self.threads@ =~= pre.threads@.update(tj as int, self.threads@[tj as int]));
                assert(self.interfaces@ =~= pre.interfaces@.update(
                    ri as int,
                    self.interfaces@[ri as int],
                ));
                assert(requested_threads(self.interfaces@[ri as int].1) =~= requested_threads(
                    pre.interfaces@[ri as int].1,
                ).remove(0));
                assert(requested_other(self.interfaces@[ri as int].1) =~= requested_other(
                    pre.interfaces@[ri as int].1,
                ));
                lemma_unpark(pre, *self, tj as int, ri as int, 0);
                lemma_registry_lookup_update(pre, *self, ri as int);
                assert(requested_threads(self.interfaces@[ri as int].1) =~= old_waiting.subrange(
                    wi + 1 as int,
                    n_waiting as int,
                ));
                lemma_thread_index_unique(*self, tj as int);
                // The flushed thread still carried its original parked state.
                assert(tid0 == old_waiting[wi as int]) by {
                    assert(requested_threads(pre.interfaces@[ri as int].1) == old_waiting.subrange(
                        wi as int,
                        n_waiting as int,
                    ));
                }
                assert(pre.threads@[tj as int] == start.threads@[tj as int]) by {
                    assert(is_emit_pending(pre.threads@[tj as int].state));
                }
                assert(start.thread_of(tid0) == start.threads@[tj as int]) by {
                    assert(start.threads@[tj as int].tid == tid0);
                    lemma_thread_index_unique(start, tj as int);
                }
                assert(st == start.thread_of(old_waiting[wi as int]).state);
                assert(wf_thread_state(st));
            }
            let ghost actions_before = actions@;
            match (pmid, pwrite) {
                (Some(id), Some(ptr)) => {
                    let mut bytes: Vec<u8> = Vec::new();
                    crate::le::push_le_64(&mut bytes, id.0);
                    proof {
                        assert(bytes@ =~= crate::le::le_bytes_64(id.0));
                    }
                    actions.push(CoreAction::WriteMemory { tid: tid0, address: ptr, data: bytes });
                },
                _ => {
                    proof {
                        assert(pmid is None);
                    }
                },
            }
            actions.push(CoreAction::Resume { tid: tid0, value: Some(0) });
            proof {
                let n = actions@.len();
                assert(actions@[n - 1] matches CoreAction::Resume { tid: t2, value } && t2 == tid0
                    && value == Some(0u32));
                assert(flush_actions_for(start, old_waiting[wi as int], actions@)) by {
                    match emit_pending_id(start.thread_of(old_waiting[wi as int]).state) {
                        Some(id) => {
                            assert(pmid == Some(id));
                            assert(pwrite is Some);
                            assert(actions@[n - 2] matches CoreAction::WriteMemory {
                                tid: t2,
                                address,
                                data,
                            } && t2 == old_waiting[wi as int] && Some(address) == emit_pending_ptr(
                                start.thread_of(old_waiting[wi as int]).state,
                            ) && data@ == crate::le::le_bytes_64(id.0));
                        },
                        None => {},
                    }
                }
                assert forall|k2: int|
                    0 <= k2 < wi + 1 implies flush_actions_for(
                    start,
                    #[trigger] old_waiting[k2],
                    actions@,
                ) by {
                    if k2 < wi {
                        assert(actions@.subrange(0, actions_before.len() as int)
                            =~= actions_before);
                        lemma_flush_actions_monotone(
                            start,
                            old_waiting[k2],
                            actions_before,
                            actions@,
                        );
                    }
                }
            }
            let ghost mid1 = *self;
            let emitter0 = self.threads[tj].pid;
            if live {
                let hpi = match self.find_process_index(process) {
                    Some(i) => i,
                    None => {
                        proof {
                            assert(false);
                        }
                        0
                    },
                };
                proof {
                    lemma_proc_index_unique(*self, hpi as int);
                }
                let mut hproc = self.processes.remove(hpi);
                hproc.messages_queue.push(
                    KernelMessage::Interface {
                        interface: key_copy,
                        message_id: pmid,
                        emitter_pid: emitter0,
                        actual_data: pmsg,
                    },
                );
                match pmid {
                    Some(id) => {
                        hproc.messages_to_answer.push(id);
                    },
                    None => {},
                }
                self.processes.insert(hpi, hproc);
                proof {
                    assert(self.processes@ =~= mid1.processes@.update(
                        hpi as int,
                        self.processes@[hpi as int],
                    ));
                    assert(wf_thread_state(pre.threads@[tj as int].state));
                    assert forall|k: int|
                        0 <= k
                            < self.processes@[hpi as int].messages_queue@.len() implies wf_message(
                        #[trigger] self.processes@[hpi as int].messages_queue@[k],
                    ) by {
                        if k < mid1.processes@[hpi as int].messages_queue@.len() {
                            assert(self.processes@[hpi as int].messages_queue@[k]
                                == mid1.processes@[hpi as int].messages_queue@[k]);
                            assert(wf_message(mid1.processes@[hpi as int].messages_queue@[k]));
                        }
                    }
                    match pmid {
                        Some(id) => {
                            assert(pre.thread_pending_id(tj as int, id));
                            assert(mid1.table_contains(id));
                            assert forall|j: int|
                                0 <= j < mid1.processes@.len() implies !(
                            #[trigger] mid1.processes@[j]).messages_to_answer@.contains(id) by {
                                assert(!pre.processes@[j].messages_to_answer@.contains(id));
                            }
                            assert forall|i: int| !(#[trigger] mid1.thread_pending_id(i, id)) by {
                                if mid1.thread_pending_id(i, id) {
                                    assert(i != tj);
                                    assert(pre.thread_pending_id(i, id));
                                }
                            }
                            assert forall|ii: int, k: int| !(#[trigger] mid1.other_pending_id(
                                ii,
                                k,
                                id,
                            )) by {
                                if mid1.other_pending_id(ii, k, id) {
                                    let ghost ok: int = k;
                                    assert(pre.other_pending_id(ii, ok, id)) by {
                                        if ii == ri as int {
                                            assert(requested_other(mid1.interfaces@[ii].1)[k]
                                                == requested_other(pre.interfaces@[ii].1)[k]);
                                        }
                                    }
                                }
                            }
                            lemma_enqueue_with_owed(mid1, *self, hpi as int, id);
                        },
                        None => {
                            lemma_update_process_queue(mid1, *self, hpi as int);
                        },
                    }
                    lemma_proc_index_unique(*self, hpi as int);
                    lemma_registry_index_unique(*self, ri as int);
                    lemma_thread_index_unique(*self, tj as int);
                }
            } else {
                let ghost mid2 = *self;
                self.pending_events.push(
                    CoreRunOutcome::ReservedPidInterfaceMessage {
                        pid: emitter0,
                        message_id: pmid,
                        interface: key_copy,
                        message: pmsg,
                    },
                );
                proof {
                    lemma_wf_same_tables(mid2, *self);
                    assert(self.pending_events@.subrange(0, start.pending_events@.len() as int)
                        =~= start.pending_events@);
                    lemma_registry_index_unique(*self, ri as int);
                    lemma_thread_index_unique(*self, tj as int);
                }
            }
            proof {
                assert forall|k: int|
                    0 <= k < wi + 1 implies self.is_live_tid(#[trigger] old_waiting[k])
                    && self.thread_of(old_waiting[k]).state is Runnable by {
                    if k < wi {
                        assert(pre.is_live_tid(old_waiting[k]) && pre.thread_of(
                            old_waiting[k],
                        ).state is Runnable);
                        let j = pre.thread_index_of(old_waiting[k]);
                        lemma_thread_index_unique(pre, j);
                        lemma_thread_index_unique(*self, j);
                    } else {
                        assert(old_waiting[k] == tid0);
                        lemma_thread_index_unique(*self, tj as int);
                    }
                }
            }
            proof {
                assert forall|h2: Seq<u8>|
                    #[trigger] start.registry_contains(h2) && h2 != h implies self.registry_contains(h2)
                    && self.registry_state(h2) == start.registry_state(h2) by {
                    assert(pre.registry_contains(h2) && pre.registry_state(h2)
                        == start.registry_state(h2));
                    let j = pre.registry_index_of(h2);
                    lemma_registry_index_unique(pre, j);
                    assert(j != ri);
                    assert(self.interfaces@[j].0@ == h2);
                    lemma_registry_index_unique(*self, j);
                }
                assert forall|i2: int|
                    0 <= i2 < start.interfaces@.len() && i2 != ri implies (
                #[trigger] self.interfaces@[i2]) == start.interfaces@[i2] by {
                    assert(self.interfaces@[i2] == pre.interfaces@[i2]);
                }
            }
            wi += 1;
        }

        // Install the handler in the now-empty entry.
        let ghost pre3 = *self;
        let (key, _st3) = self.interfaces.remove(ri);
        self.interfaces.insert(ri, (key, InterfaceState::Process(process)));
        proof {
            assert(self.interfaces@ =~= pre3.interfaces@.update(
                ri as int,
                self.interfaces@[ri as int],
            ));
            assert(pre3.is_live_pid(process) || pre3.is_reserved_pid(process)) by {
                if !start.is_live_pid(process) {
                    assert(start.is_reserved_pid(process));
                }
            }
            lemma_set_handler_entry(pre3, *self, ri as int, false, process);
            lemma_registry_lookup_update(pre3, *self, ri as int);
            assert forall|k: int|
                0 <= k < old_waiting.len() implies self.thread_of(
                #[trigger] old_waiting[k],
            ).state is Runnable by {
                let j = pre3.thread_index_of(old_waiting[k]);
                lemma_thread_index_unique(pre3, j);
                lemma_thread_index_unique(*self, j);
            }
            assert forall|h2: Seq<u8>|
                #[trigger] start.registry_contains(h2) && h2 != h implies self.registry_contains(h2)
                && self.registry_state(h2) == start.registry_state(h2) by {
                assert(pre3.registry_contains(h2) && pre3.registry_state(h2)
                    == start.registry_state(h2));
                let j = pre3.registry_index_of(h2);
                lemma_registry_index_unique(pre3, j);
                assert(j != ri);
                assert(self.interfaces@[j].0@ == h2);
                lemma_registry_index_unique(*self, j);
            }
            // The flushed queue contents carry over: the finale touches only
            // the registry entry.
            if start.is_live_pid(process) {
                let pj = start.proc_index_of(process);
                lemma_proc_index_unique(start, pj);
                assert(pre3.processes@[pj].pid == process);
                lemma_proc_index_unique(pre3, pj);
                lemma_proc_index_unique(*self, pj);
                assert(self.proc_of(process).messages_queue@ == pre3.proc_of(
                    process,
                ).messages_queue@);
            }
            // Parked emissions only disappear: nothing new waits afterwards.
            assert forall|i2: int, id: MessageId|
                #[trigger] self.thread_pending_id(i2, id) implies start.thread_pending_id(
                i2,
                id,
            ) by {
                assert(self.threads@[i2] == pre3.threads@[i2]);
                if pre3.threads@[i2] == start.threads@[i2] {
                } else {
                    assert(pre3.threads@[i2].state is Runnable);
                }
            }
            assert forall|ii: int, k: int, id: MessageId|
                #[trigger] self.other_pending_id(ii, k, id) implies exists|k2: int|
                start.other_pending_id(ii, k2, id) by {
                if ii == ri as int {
                    assert(requested_other(self.interfaces@[ii].1).len() == 0);
                } else {
                    assert(self.interfaces@[ii] == pre3.interfaces@[ii]);
                    assert(pre3.interfaces@[ii] == start.interfaces@[ii]);
                    assert(start.other_pending_id(ii, k, id));
                }
            }
            lemma_registry_index_unique(start, ri as int);
            assert(start.registry_state(h) == start.interfaces@[ri as int].1);
            assert(start == *old(self));
            assert(requested_threads(start.registry_state(h)) == old_waiting);
            assert(requested_threads(old(self).registry_state(h)) == old_waiting);
            assert forall|k: int|
                0 <= k < old_waiting.len() implies flush_actions_for(
                *old(self),
                #[trigger] old_waiting[k],
                actions@,
            ) by {
                assert(0 <= k < n_waiting);
                assert(flush_actions_for(start, old_waiting[k], actions@));
                assert(*old(self) == start);
            }
        }
        (Ok(()), actions)
    }
}

/// After removing one table entry, every other lookup is as before.
proof fn lemma_table_remove_lookup(pre: Core, post: Core, tk: int)
    requires
        pre.table_wf(),
        0 <= tk < pre.messages_to_answer@.len(),
        post.messages_to_answer@ == pre.messages_to_answer@.remove(tk),
    ensures
        !post.table_contains(pre.messages_to_answer@[tk].0),
        forall|x: MessageId|
            #[trigger] pre.table_contains(x) && x != pre.messages_to_answer@[tk].0
                ==> post.table_contains(x) && post.table_emitter(x) == pre.table_emitter(x),
        forall|x: MessageId| #[trigger] post.table_contains(x) ==> pre.table_contains(x) && x != pre.messages_to_answer@[tk].0,
{
    let id = pre.messages_to_answer@[tk].0;
    assert forall|x: MessageId| #[trigger] post.table_contains(x) implies pre.table_contains(x) && x
        != id by {
        let i = choose|i: int|
            0 <= i < post.messages_to_answer@.len() && post.messages_to_answer@[i].0 == x;
        let ghost oi: int = if i < tk {
            i
        } else {
            i + 1
        };
        assert(pre.messages_to_answer@[oi].0 == x);
        if x == id {
            assert(pre.messages_to_answer@[oi].0 == pre.messages_to_answer@[tk].0);
            assert(oi != tk);
        }
    }
    assert forall|x: MessageId|
        #[trigger] pre.table_contains(x) && x != id implies post.table_contains(x)
        && post.table_emitter(x) == pre.table_emitter(x) by {
        let i = choose|i: int|
            0 <= i < pre.messages_to_answer@.len() && pre.messages_to_answer@[i].0 == x;
        assert(i != tk);
        let ghost ni: int = if i < tk {
            i
        } else {
            i - 1
        };
        assert(post.messages_to_answer@[ni].0 == x);
        assert(post.table_contains(x));
        let j1 = choose|j: int|
            0 <= j < pre.messages_to_answer@.len() && pre.messages_to_answer@[j].0 == x;
        let j2 = choose|j: int|
            0 <= j < post.messages_to_answer@.len() && post.messages_to_answer@[j].0 == x;
        let ghost oj2: int = if j2 < tk {
            j2
        } else {
            j2 + 1
        };
        assert(pre.messages_to_answer@[oj2].0 == x);
        if j1 != oj2 {
            assert(pre.messages_to_answer@[j1].0 != pre.messages_to_answer@[oj2].0);
        }
        assert(post.table_emitter(x) == post.messages_to_answer@[j2].1);
        assert(post.messages_to_answer@[j2] == pre.messages_to_answer@[oj2]);
    }
}

/// Removing one entry of one owed list preserves the invariant.
proof fn lemma_remove_owed(pre: Core, post: Core, pi: int, k: int)
    requires
        pre.wf(),
        0 <= pi < pre.processes@.len(),
        0 <= k < pre.processes@[pi].messages_to_answer@.len(),
        post.processes@.len() == pre.processes@.len(),
        post.processes@ == pre.processes@.update(pi, post.processes@[pi]),
        post.processes@[pi].pid == pre.processes@[pi].pid,
        post.processes@[pi].emitted_messages@ == pre.processes@[pi].emitted_messages@,
        post.processes@[pi].messages_queue@ == pre.processes@[pi].messages_queue@,
        post.processes@[pi].messages_to_answer@ == pre.processes@[pi].messages_to_answer@.remove(
            k,
        ),
        post.threads@ == pre.threads@,
        post.interfaces@ == pre.interfaces@,
        post.reserved_pids@ == pre.reserved_pids@,
        post.messages_to_answer@ == pre.messages_to_answer@,
    ensures
        post.wf(),
{
    assert forall|p: Pid| pre.is_live_pid(p) implies post.is_live_pid(p) by {
        let i = choose|i: int| 0 <= i < pre.processes@.len() && pre.processes@[i].pid == p;
        assert(post.processes@[i].pid == p);
    }
    assert forall|j: int, k2: int|
        0 <= j < post.processes@.len() && 0 <= k2
            < post.processes@[j].messages_to_answer@.len() implies #[trigger] post.processes@[j].messages_to_answer@[k2]
        == pre.processes@[j].messages_to_answer@[if j == pi && k2 >= k {
        k2 + 1
    } else {
        k2
    }] by {}
    assert(post.pids_wf());
    assert(post.threads_wf()) by {
        assert forall|i: int|
            0 <= i < post.threads@.len() implies post.is_live_pid(
            (#[trigger] post.threads@[i]).pid,
        ) by {
            assert(pre.is_live_pid(pre.threads@[i].pid));
        }
    }
    assert(post.interfaces_wf()) by {
        assert forall|i: int, k2: int|
            0 <= i < post.interfaces@.len() && 0 <= k2 < requested_threads(
                post.interfaces@[i].1,
            ).len() implies {
            let t = #[trigger] requested_threads(post.interfaces@[i].1)[k2];
            &&& post.is_live_tid(t)
            &&& is_emit_pending(post.thread_of(t).state)
            &&& emit_pending_interface(post.thread_of(t).state) == post.interfaces@[i].0@
        } by {
            let t = requested_threads(post.interfaces@[i].1)[k2];
            assert(pre.is_live_tid(t));
        }
    }
    assert(post.table_wf()) by {
        assert forall|i: int|
            0 <= i < post.messages_to_answer@.len() implies post.is_live_pid(
            (#[trigger] post.messages_to_answer@[i]).1,
        ) || post.is_reserved_pid(post.messages_to_answer@[i].1) by {
            assert(pre.is_live_pid(pre.messages_to_answer@[i].1) || pre.is_reserved_pid(
                pre.messages_to_answer@[i].1,
            ));
        }
    }
    assert(post.emitted_wf()) by {
        assert forall|j: int|
            0 <= j < post.messages_to_answer@.len() && post.is_live_pid(
                (#[trigger] post.messages_to_answer@[j]).1,
            ) implies post.proc_of(post.messages_to_answer@[j].1).emitted_messages@.contains(
            post.messages_to_answer@[j].0,
        ) by {
            let p = post.messages_to_answer@[j].1;
            assert(post.is_live_pid(p) ==> pre.is_live_pid(p)) by {
                if post.is_live_pid(p) {
                    let i = choose|i: int|
                        0 <= i < post.processes@.len() && post.processes@[i].pid == p;
                    assert(pre.processes@[i].pid == p);
                }
            }
            let i2 = pre.proc_index_of(p);
            lemma_proc_index_unique(pre, i2);
            lemma_proc_index_unique(post, i2);
            assert(post.proc_of(p).emitted_messages@ == pre.proc_of(p).emitted_messages@);
        }
    }
    assert(post.owed_wf());
    assert(post.pending_wf()) by {
        assert forall|j: int, id2: MessageId|
            0 <= j < post.processes@.len() && !pre.processes@[j].messages_to_answer@.contains(
                id2,
            ) implies !(#[trigger] post.processes@[j].messages_to_answer@.contains(id2)) by {
            if post.processes@[j].messages_to_answer@.contains(id2) {
                let k3 = choose|k3: int|
                    0 <= k3 < post.processes@[j].messages_to_answer@.len()
                        && post.processes@[j].messages_to_answer@[k3] == id2;
                assert(pre.processes@[j].messages_to_answer@[if j == pi && k3 >= k {
                    k3 + 1
                } else {
                    k3
                }] == id2);
            }
        }
        assert forall|i: int, id: MessageId|
            #[trigger] post.thread_pending_id(i, id) implies post.table_contains(id)
            && post.table_emitter(id) == post.threads@[i].pid && (forall|j: int|
            0 <= j < post.processes@.len()
                ==> !(#[trigger] post.processes@[j]).messages_to_answer@.contains(id)) by {
            assert(pre.thread_pending_id(i, id));
        }
        assert forall|i1: int, i2: int, id: MessageId|
            #[trigger] post.thread_pending_id(i1, id) && #[trigger] post.thread_pending_id(
                i2,
                id,
            ) implies i1 == i2 by {
            assert(pre.thread_pending_id(i1, id));
            assert(pre.thread_pending_id(i2, id));
        }
        assert forall|ii: int, k2: int, id: MessageId|
            #[trigger] post.other_pending_id(ii, k2, id) implies post.table_contains(id)
            && post.table_emitter(id) == requested_other(post.interfaces@[ii].1)[k2].emitter_pid
            && post.is_reserved_pid(requested_other(post.interfaces@[ii].1)[k2].emitter_pid) && (
        forall|j: int|
            0 <= j < post.processes@.len()
                ==> !(#[trigger] post.processes@[j]).messages_to_answer@.contains(id)) by {
            assert(pre.other_pending_id(ii, k2, id));
        }
        assert forall|ii1: int, k1: int, ii2: int, k2: int, id: MessageId|
            #[trigger] post.other_pending_id(ii1, k1, id) && #[trigger] post.other_pending_id(
                ii2,
                k2,
                id,
            ) implies ii1 == ii2 && k1 == k2 by {
            assert(pre.other_pending_id(ii1, k1, id));
            assert(pre.other_pending_id(ii2, k2, id));
        }
        assert forall|i: int, ii: int, k2: int, id: MessageId|
            #[trigger] post.thread_pending_id(i, id) implies !(#[trigger] post.other_pending_id(
            ii,
            k2,
            id,
        )) by {
            assert(pre.thread_pending_id(i, id));
            if post.other_pending_id(ii, k2, id) {
                assert(pre.other_pending_id(ii, k2, id));
            }
        }
    }
    assert(post.queues_wf()) by {
        assert forall|i: int, k2: int|
            0 <= i < post.processes@.len() && 0 <= k2
                < post.processes@[i].messages_queue@.len() implies wf_message(
            #[trigger] post.processes@[i].messages_queue@[k2],
        ) by {
            assert(post.processes@[i].messages_queue@ == pre.processes@[i].messages_queue@);
            assert(wf_message(pre.processes@[i].messages_queue@[k2]));
        }
    }
}

/// Retiring an outstanding response: the table entry is removed together
/// with its trace in the emitter's emitted list. Preserves the invariant.
#[verifier::rlimit(100)]
#[verifier::spinoff_prover]
proof fn lemma_remove_emission(pre: Core, post: Core, tk: int, live_emitter: bool, ek: int)
    requires
        pre.wf(),
        0 <= tk < pre.messages_to_answer@.len(),
        forall|j: int|
            0 <= j < pre.processes@.len() ==> !(#[trigger] pre.processes@[j]).messages_to_answer@.contains(
                pre.messages_to_answer@[tk].0,
            ),
        forall|i: int| !(#[trigger] pre.thread_pending_id(i, pre.messages_to_answer@[tk].0)),
        forall|ii: int, k: int|
            !(#[trigger] pre.other_pending_id(ii, k, pre.messages_to_answer@[tk].0)),
        post.messages_to_answer@ == pre.messages_to_answer@.remove(tk),
        live_emitter == pre.is_live_pid(pre.messages_to_answer@[tk].1),
        ({
            if live_emitter {
                let pi = pre.proc_index_of(pre.messages_to_answer@[tk].1);
                &&& 0 <= ek < pre.processes@[pi].emitted_messages@.len()
                &&& pre.processes@[pi].emitted_messages@[ek] == pre.messages_to_answer@[tk].0
                &&& post.processes@.len() == pre.processes@.len()
                &&& post.processes@ == pre.processes@.update(pi, post.processes@[pi])
                &&& post.processes@[pi].pid == pre.processes@[pi].pid
                &&& post.processes@[pi].emitted_messages@ == pre.processes@[pi].emitted_messages@.remove(
                    ek,
                )
                &&& post.processes@[pi].messages_to_answer@ == pre.processes@[pi].messages_to_answer@
                &&& post.processes@[pi].messages_queue@ == pre.processes@[pi].messages_queue@
            } else {
                post.processes@ == pre.processes@
            }
        }),
        post.threads@ == pre.threads@,
        post.interfaces@ == pre.interfaces@,
        post.reserved_pids@ == pre.reserved_pids@,
    ensures
        post.wf(),
        !post.table_contains(pre.messages_to_answer@[tk].0),
        forall|x: MessageId|
            #[trigger] pre.table_contains(x) && x != pre.messages_to_answer@[tk].0
                ==> post.table_contains(x) && post.table_emitter(x) == pre.table_emitter(x),
{
    let id = pre.messages_to_answer@[tk].0;
    let e = pre.messages_to_answer@[tk].1;
    lemma_table_remove_lookup(pre, post, tk);
    assert forall|p: Pid| pre.is_live_pid(p) implies post.is_live_pid(p) by {
        let i = choose|i: int| 0 <= i < pre.processes@.len() && pre.processes@[i].pid == p;
        assert(post.processes@[i].pid == p);
    }
    assert(post.pids_wf());
    assert(post.threads_wf()) by {
        assert forall|i: int|
            0 <= i < post.threads@.len() implies post.is_live_pid(
            (#[trigger] post.threads@[i]).pid,
        ) by {
            assert(pre.is_live_pid(pre.threads@[i].pid));
        }
    }
    assert(post.interfaces_wf()) by {
        assert forall|i: int, k2: int|
            0 <= i < post.interfaces@.len() && 0 <= k2 < requested_threads(
                post.interfaces@[i].1,
            ).len() implies {
            let t = #[trigger] requested_threads(post.interfaces@[i].1)[k2];
            &&& post.is_live_tid(t)
            &&& is_emit_pending(post.thread_of(t).state)
            &&& emit_pending_interface(post.thread_of(t).state) == post.interfaces@[i].0@
        } by {
            let t = requested_threads(post.interfaces@[i].1)[k2];
            assert(pre.is_live_tid(t));
        }
    }
    assert(post.table_wf()) by {
        assert forall|i: int, j: int|
            0 <= i < j < post.messages_to_answer@.len() implies post.messages_to_answer@[i].0
                != post.messages_to_answer@[j].0 by {
            let ghost oi: int = if i < tk {
                i
            } else {
                i + 1
            };
            let ghost oj: int = if j < tk {
                j
            } else {
                j + 1
            };
            assert(post.messages_to_answer@[i] == pre.messages_to_answer@[oi]);
            assert(post.messages_to_answer@[j] == pre.messages_to_answer@[oj]);
        }
        assert forall|i: int|
            0 <= i < post.messages_to_answer@.len() implies post.is_live_pid(
            (#[trigger] post.messages_to_answer@[i]).1,
        ) || post.is_reserved_pid(post.messages_to_answer@[i].1) by {
            let ghost oi: int = if i < tk {
                i
            } else {
                i + 1
            };
            assert(post.messages_to_answer@[i] == pre.messages_to_answer@[oi]);
            assert(pre.is_live_pid(pre.messages_to_answer@[oi].1) || pre.is_reserved_pid(
                pre.messages_to_answer@[oi].1,
            ));
        }
    }
    assert(post.emitted_wf()) by {
        assert forall|i: int, k2: int|
            0 <= i < post.processes@.len() && 0 <= k2
                < post.processes@[i].emitted_messages@.len() implies post.table_contains(
            #[trigger] post.processes@[i].emitted_messages@[k2],
        ) && post.table_emitter(post.processes@[i].emitted_messages@[k2])
            == post.processes@[i].pid by {
            let x = post.processes@[i].emitted_messages@[k2];
            let ghost pi: int = if live_emitter {
                pre.proc_index_of(e)
            } else {
                -1
            };
            if live_emitter && i == pi {
                let ghost ok: int = if k2 < ek {
                    k2
                } else {
                    k2 + 1
                };
                assert(x == pre.processes@[i].emitted_messages@[ok]);
                assert(pre.table_contains(x) && pre.table_emitter(x) == pre.processes@[i].pid);
                assert(x != id) by {
                    if x == id {
                        assert(pre.processes@[i].emitted_messages@[ok]
                            == pre.processes@[i].emitted_messages@[ek]);
                    }
                }
            } else {
                assert(post.processes@[i].emitted_messages@ == pre.processes@[i].emitted_messages@);
                assert(pre.table_contains(x) && pre.table_emitter(x) == pre.processes@[i].pid);
                assert(x != id) by {
                    if x == id {
                        if live_emitter {
                            lemma_proc_index_unique(pre, pi);
                            lemma_proc_index_unique(pre, i);
                            assert(pre.table_emitter(id) == e) by {
                                lemma_table_index_unique(pre, tk);
                            }
                        } else {
                            assert(pre.table_emitter(id) == e) by {
                                lemma_table_index_unique(pre, tk);
                            }
                            assert(pre.is_live_pid(pre.processes@[i].pid));
                        }
                    }
                }
            }
        }
        assert forall|i: int, k1: int, k2: int|
            0 <= i < post.processes@.len() && 0 <= k1 < k2
                < post.processes@[i].emitted_messages@.len()
                implies #[trigger] post.processes@[i].emitted_messages@[k1]
            != #[trigger] post.processes@[i].emitted_messages@[k2] by {
            let ghost pi: int = if live_emitter {
                pre.proc_index_of(e)
            } else {
                -1
            };
            if live_emitter && i == pi {
                let ghost o1: int = if k1 < ek {
                    k1
                } else {
                    k1 + 1
                };
                let ghost o2: int = if k2 < ek {
                    k2
                } else {
                    k2 + 1
                };
                assert(post.processes@[i].emitted_messages@[k1]
                    == pre.processes@[i].emitted_messages@[o1]);
                assert(post.processes@[i].emitted_messages@[k2]
                    == pre.processes@[i].emitted_messages@[o2]);
            }
        }
        assert forall|j: int|
            0 <= j < post.messages_to_answer@.len() && post.is_live_pid(
                (#[trigger] post.messages_to_answer@[j]).1,
            ) implies post.proc_of(post.messages_to_answer@[j].1).emitted_messages@.contains(
            post.messages_to_answer@[j].0,
        ) by {
            let ghost oj: int = if j < tk {
                j
            } else {
                j + 1
            };
            assert(post.messages_to_answer@[j] == pre.messages_to_answer@[oj]);
            let p = pre.messages_to_answer@[oj].1;
            let x = pre.messages_to_answer@[oj].0;
            assert(post.is_live_pid(p) ==> pre.is_live_pid(p)) by {
                if post.is_live_pid(p) {
                    let i = choose|i: int|
                        0 <= i < post.processes@.len() && post.processes@[i].pid == p;
                    assert(pre.processes@[i].pid == p);
                }
            }
            assert(pre.proc_of(p).emitted_messages@.contains(x));
            let i2 = pre.proc_index_of(p);
            lemma_proc_index_unique(pre, i2);
            lemma_proc_index_unique(post, i2);
            let ghost pi: int = if live_emitter {
                pre.proc_index_of(e)
            } else {
                -1
            };
            if live_emitter && i2 == pi {
                let k3 = choose|k3: int|
                    0 <= k3 < pre.proc_of(p).emitted_messages@.len() && pre.proc_of(
                        p,
                    ).emitted_messages@[k3] == x;
                assert(x != id) by {
                    assert(oj != tk);
                    if x == id {
                        lemma_table_index_unique(pre, oj);
                        lemma_table_index_unique(pre, tk);
                        assert(pre.messages_to_answer@[oj].0 != pre.messages_to_answer@[tk].0);
                    }
                }
                assert(k3 != ek);
                let ghost nk: int = if k3 < ek {
                    k3
                } else {
                    k3 - 1
                };
                assert(post.proc_of(p).emitted_messages@[nk] == x);
            } else {
                assert(post.proc_of(p).emitted_messages@ == pre.proc_of(p).emitted_messages@);
            }
        }
    }
    assert(post.owed_wf()) by {
        assert forall|i: int, k2: int|
            0 <= i < post.processes@.len() && 0 <= k2
                < post.processes@[i].messages_to_answer@.len() implies post.table_contains(
            #[trigger] post.processes@[i].messages_to_answer@[k2],
        ) by {
            assert(post.processes@[i].messages_to_answer@ == pre.processes@[i].messages_to_answer@);
            let x = pre.processes@[i].messages_to_answer@[k2];
            assert(pre.table_contains(x));
            assert(x != id) by {
                if x == id {
                    assert(pre.processes@[i].messages_to_answer@.contains(id));
                }
            }
        }
    }
    assert(post.pending_wf()) by {
        assert forall|i: int, id2: MessageId|
            #[trigger] post.thread_pending_id(i, id2) implies post.table_contains(id2)
            && post.table_emitter(id2) == post.threads@[i].pid && (forall|j: int|
            0 <= j < post.processes@.len()
                ==> !(#[trigger] post.processes@[j]).messages_to_answer@.contains(id2)) by {
            assert(pre.thread_pending_id(i, id2));
            assert(id2 != id);
            assert forall|j: int|
                0 <= j < post.processes@.len() implies !(
            #[trigger] post.processes@[j]).messages_to_answer@.contains(id2) by {
                assert(!pre.processes@[j].messages_to_answer@.contains(id2));
                assert(post.processes@[j].messages_to_answer@
                    == pre.processes@[j].messages_to_answer@);
            }
        }
        assert forall|i1: int, i2: int, id2: MessageId|
            #[trigger] post.thread_pending_id(i1, id2) && #[trigger] post.thread_pending_id(
                i2,
                id2,
            ) implies i1 == i2 by {
            assert(pre.thread_pending_id(i1, id2));
            assert(pre.thread_pending_id(i2, id2));
        }
        assert forall|ii: int, k2: int, id2: MessageId|
            #[trigger] post.other_pending_id(ii, k2, id2) implies post.table_contains(id2)
            && post.table_emitter(id2) == requested_other(post.interfaces@[ii].1)[k2].emitter_pid
            && post.is_reserved_pid(requested_other(post.interfaces@[ii].1)[k2].emitter_pid) && (
        forall|j: int|
            0 <= j < post.processes@.len()
                ==> !(#[trigger] post.processes@[j]).messages_to_answer@.contains(id2)) by {
            assert(pre.other_pending_id(ii, k2, id2));
            assert(id2 != id);
            assert forall|j: int|
                0 <= j < post.processes@.len() implies !(
            #[trigger] post.processes@[j]).messages_to_answer@.contains(id2) by {
                assert(!pre.processes@[j].messages_to_answer@.contains(id2));
                assert(post.processes@[j].messages_to_answer@
                    == pre.processes@[j].messages_to_answer@);
            }
        }
        assert forall|ii1: int, k1: int, ii2: int, k2: int, id2: MessageId|
            #[trigger] post.other_pending_id(ii1, k1, id2) && #[trigger] post.other_pending_id(
                ii2,
                k2,
                id2,
            ) implies ii1 == ii2 && k1 == k2 by {
            assert(pre.other_pending_id(ii1, k1, id2));
            assert(pre.other_pending_id(ii2, k2, id2));
        }
        assert forall|i: int, ii: int, k2: int, id2: MessageId|
            #[trigger] post.thread_pending_id(i, id2) implies !(#[trigger] post.other_pending_id(
            ii,
            k2,
            id2,
        )) by {
            assert(pre.thread_pending_id(i, id2));
            if post.other_pending_id(ii, k2, id2) {
                assert(pre.other_pending_id(ii, k2, id2));
            }
        }
    }
    assert(post.queues_wf()) by {
        assert forall|i: int, k2: int|
            0 <= i < post.processes@.len() && 0 <= k2
                < post.processes@[i].messages_queue@.len() implies wf_message(
            #[trigger] post.processes@[i].messages_queue@[k2],
        ) by {
            assert(post.processes@[i].messages_queue@ == pre.processes@[i].messages_queue@);
            assert(wf_message(pre.processes@[i].messages_queue@[k2]));
        }
    }
}

/// Removes the first occurrence of `id` from `v`.
fn remove_id_occurrence(v: &mut Vec<MessageId>, id: MessageId) -> (r: Option<usize>)
    ensures
        r is None ==> final(v)@ == old(v)@ && !old(v)@.contains(id),
        r matches Some(k) ==> 0 <= k < old(v)@.len() && old(v)@[k as int] == id && final(v)@ == old(
            v,
        )@.remove(k as int),
{
    let mut i: usize = 0;
    while i < v.len()
        invariant
            i <= v@.len(),
            v@ == old(v)@,
            forall|j: int| 0 <= j < i ==> v@[j] != id,
        decreases v@.len() - i,
    {
        if v[i].0 == id.0 {
            v.remove(i);
            return Some(i);
        }
        i += 1;
    }
    proof {
        if v@.contains(id) {
            let j = choose|j: int| 0 <= j < v@.len() && v@[j] == id;
            assert(v@[j] != id);
        }
    }
    None
}

impl Core {
    /// `id` still waits for a handler: it belongs to a parked emission or to
    /// a message queued on a handlerless interface.
    fn id_is_pending(&self, id: MessageId) -> (r: bool)
        ensures
            r == ((exists|i: int| #[trigger] self.thread_pending_id(i, id)) || (exists|
                ii: int,
                k: int,
            | #[trigger] self.other_pending_id(ii, k, id))),
    {
        let mut i: usize = 0;
        while i < self.threads.len()
            invariant
                i <= self.threads@.len(),
                forall|j: int| 0 <= j < i ==> !(#[trigger] self.thread_pending_id(j, id)),
            decreases self.threads@.len() - i,
        {
            let hit = match &self.threads[i].state {
                ThreadState::EmitPending { message_id: Some(mid), .. } => mid.0 == id.0,
                _ => false,
            };
            if hit {
                proof {
                    assert(self.thread_pending_id(i as int, id));
                }
                return true;
            }
            proof {
                assert(!self.thread_pending_id(i as int, id));
            }
            i += 1;
        }
        proof {
            assert forall|j: int| !(#[trigger] self.thread_pending_id(j, id)) by {
                if self.thread_pending_id(j, id) {
                    assert(0 <= j < self.threads@.len());
                }
            }
        }
        let mut ii: usize = 0;
        while ii < self.interfaces.len()
            invariant
                ii <= self.interfaces@.len(),
                forall|j: int, k: int|
                    0 <= j < ii ==> !(#[trigger] self.other_pending_id(j, k, id)),
                forall|j: int| !(#[trigger] self.thread_pending_id(j, id)),
            decreases self.interfaces@.len() - ii,
        {
            let found = match &self.interfaces[ii].1 {
                InterfaceState::Requested { other, .. } => {
                    let mut k: usize = 0;
                    let mut f = false;
                    while k < other.len()
                        invariant
                            k <= other@.len(),
                            f == exists|k2: int|
                                0 <= k2 < k && (#[trigger] other@[k2]).message_id == Some(id),
                        decreases other@.len() - k,
                    {
                        let hit = match other[k].message_id {
                            Some(mid) => mid.0 == id.0,
                            None => false,
                        };
                        if hit {
                            proof {
                                assert(other@[k as int].message_id == Some(id));
                            }
                            f = true;
                        }
                        k += 1;
                    }
                    f
                },
                InterfaceState::Process(_) => false,
            };
            if found {
                proof {
                    let k2 = choose|k2: int|
                        0 <= k2 < requested_other(self.interfaces@[ii as int].1).len() && (
                        #[trigger] requested_other(self.interfaces@[ii as int].1)[k2]).message_id
                            == Some(id);
                    assert(self.other_pending_id(ii as int, k2, id));
                }
                return true;
            }
            proof {
                assert forall|k: int| !(#[trigger] self.other_pending_id(ii as int, k, id)) by {
                    if self.other_pending_id(ii as int, k, id) {
                        assert(requested_other(self.interfaces@[ii as int].1)[k].message_id
                            == Some(id));
                    }
                }
            }
            ii += 1;
        }
        proof {
            assert forall|j: int, k: int| !(#[trigger] self.other_pending_id(j, k, id)) by {
                if self.other_pending_id(j, k, id) {
                    assert(0 <= j < self.interfaces@.len());
                }
            }
        }
        false
    }

    /// Removes `id` from the table and from every list that references it:
    /// the emitter's emitted list and any owed list. Returns the emitter
    /// when an entry was retired; an unknown or still-pending id retires
    /// nothing.
    fn retire_entry(&mut self, message_id: MessageId) -> (r: Option<Pid>)
        requires
            old(self).wf(),
        ensures
            final(self).wf(),
            final(self).threads@ == old(self).threads@,
            final(self).interfaces@ == old(self).interfaces@,
            final(self).reserved_pids@ == old(self).reserved_pids@,
            final(self).pending_events@ == old(self).pending_events@,
            final(self).processes@.len() == old(self).processes@.len(),
            r is None ==> final(self).messages_to_answer@ == old(self).messages_to_answer@ && final(self).processes@ == old(self).processes@ && (!old(self).table_contains(message_id) || (exists|i: int| #[trigger] old(self).thread_pending_id(i, message_id)) || (exists|ii: int, k: int| #[trigger] old(self).other_pending_id(ii, k, message_id))),
            r matches Some(e) ==> {
                &&& old(self).table_contains(message_id)
                &&& !(exists|i: int| #[trigger] old(self).thread_pending_id(i, message_id))
                &&& !(exists|ii: int, k: int|
                    #[trigger] old(self).other_pending_id(ii, k, message_id))
                &&& e == old(self).table_emitter(message_id)
                &&& !final(self).table_contains(message_id)
                &&& final(self).messages_to_answer@.len() == old(self).messages_to_answer@.len()
                    - 1
                &&& (forall|x: MessageId|
                    #[trigger] old(self).table_contains(x) && x != message_id ==> final(self).table_contains(x) && final(self).table_emitter(x) == old(self).table_emitter(x))
                &&& (forall|x: MessageId| #[trigger] final(self).table_contains(x) ==> old(self).table_contains(x))
                &&& (old(self).is_live_pid(e) ==> {
                    &&& final(self).proc_of(e).pid == e
                    &&& !final(self).proc_of(e).emitted_messages@.contains(message_id)
                    &&& final(self).proc_of(e).messages_queue@ == old(self).proc_of(e).messages_queue@
                    &&& final(self).proc_index_of(e) == old(self).proc_index_of(e)
                })
                &&& (forall|j: int|
                    0 <= j < final(self).processes@.len() ==> (#[trigger] final(self).processes@[j]).pid == old(self).processes@[j].pid && final(self).processes@[j].messages_queue@ == old(self).processes@[j].messages_queue@)
                &&& (forall|j: int|
                    0 <= j < final(self).processes@.len() ==> !(#[trigger] final(self).processes@[j]).messages_to_answer@.contains(message_id))
                &&& (forall|j: int, x: MessageId|
                    0 <= j < final(self).processes@.len() && x != message_id ==> ((#[trigger] final(self).processes@[j].messages_to_answer@.contains(x)) <==> old(self).processes@[j].messages_to_answer@.contains(x)))
                &&& (forall|j: int, x: MessageId|
                    0 <= j < final(self).processes@.len() && x != message_id ==> ((#[trigger] final(self).processes@[j].emitted_messages@.contains(x)) <==> old(self).processes@[j].emitted_messages@.contains(x)))
                &&& (old(self).is_live_pid(e) ==> final(self).proc_of(e).emitted_messages@.len() < old(self).proc_of(e).emitted_messages@.len())
            },
    {
        let tk = match self.find_table_index(message_id) {
            Some(i) => i,
            None => {
                return None;
            },
        };
        if self.id_is_pending(message_id) {
            return None;
        }
        proof {
            lemma_table_index_unique(*self, tk as int);
        }
        let emitter = self.messages_to_answer[tk].1;

        // Drop the id from every owed list.
        let ghost start = *self;
        let mut j: usize = 0;
        while j < self.processes.len()
            invariant
                self.wf(),
                self.processes@.len() == start.processes@.len(),
                self.threads@ == start.threads@,
                self.interfaces@ == start.interfaces@,
                self.reserved_pids@ == start.reserved_pids@,
                self.messages_to_answer@ == start.messages_to_answer@,
                self.pending_events@ == start.pending_events@,
                forall|i: int|
                    0 <= i < j ==> !(#[trigger] self.processes@[i]).messages_to_answer@.contains(
                        message_id,
                    ),
                forall|i: int, x: MessageId|
                    0 <= i < start.processes@.len() && x != message_id ==> ((
                    #[trigger] self.processes@[i].messages_to_answer@.contains(x))
                        <==> start.processes@[i].messages_to_answer@.contains(x)),
                forall|i: int|
                    0 <= i < start.processes@.len() ==> (#[trigger] self.processes@[i]).pid
                        == start.processes@[i].pid && self.processes@[i].emitted_messages@
                        == start.processes@[i].emitted_messages@
                        && self.processes@[i].messages_queue@
                        == start.processes@[i].messages_queue@,
            decreases self.processes@.len() - j,
        {
            let ghost pre = *self;
            let mut p = self.processes.remove(j);
            let removed = remove_id_occurrence(&mut p.messages_to_answer, message_id);
            self.processes.insert(j, p);
            proof {
                assert(self.processes@ =~= pre.processes@.update(j as int, self.processes@[j as int]));
                match removed {
                    Some(k) => {
                        lemma_remove_owed(pre, *self, j as int, k as int);
                        assert forall|x: MessageId|
                            x != message_id implies ((
                        #[trigger] self.processes@[j as int].messages_to_answer@.contains(x))
                            <==> pre.processes@[j as int].messages_to_answer@.contains(x)) by {
                            let ow = pre.processes@[j as int].messages_to_answer@;
                            if ow.contains(x) {
                                let k3 = choose|k3: int| 0 <= k3 < ow.len() && ow[k3] == x;
                                assert(k3 != k as int);
                                let ghost nk: int = if k3 < k as int {
                                    k3
                                } else {
                                    k3 - 1
                                };
                                assert(ow.remove(k as int)[nk] == x);
                            }
                            if ow.remove(k as int).contains(x) {
                                let k3 = choose|k3: int|
                                    0 <= k3 < ow.remove(k as int).len() && ow.remove(k as int)[k3]
                                        == x;
                                let ghost ok: int = if k3 < k as int {
                                    k3
                                } else {
                                    k3 + 1
                                };
                                assert(ow[ok] == x);
                            }
                        }
                        assert(!self.processes@[j as int].messages_to_answer@.contains(message_id))
                            by {
                            let ow = pre.processes@[j as int].messages_to_answer@;
                            if self.processes@[j as int].messages_to_answer@.contains(message_id) {
                                let k3 = choose|k3: int|
                                    0 <= k3 < ow.remove(k as int).len() && ow.remove(k as int)[k3]
                                        == message_id;
                                let ghost ok: int = if k3 < k as int {
                                    k3
                                } else {
                                    k3 + 1
                                };
                                assert(ow[ok] == message_id);
                                assert(ow[k as int] == message_id);
                            }
                        }
                    },
                    None => {
                        assert forall|k2: int|
                            0 <= k2
                                < self.processes@[j as int].messages_queue@.len() implies wf_message(
                            #[trigger] self.processes@[j as int].messages_queue@[k2],
                        ) by {
                            assert(self.processes@[j as int].messages_queue@
                                == pre.processes@[j as int].messages_queue@);
                            assert(wf_message(pre.processes@[j as int].messages_queue@[k2]));
                        }
                        lemma_update_process_queue(pre, *self, j as int);
                    },
                }
                assert forall|i: int|
                    0 <= i < j + 1 implies !(
                #[trigger] self.processes@[i]).messages_to_answer@.contains(message_id) by {
                    if i < j {
                        assert(!pre.processes@[i].messages_to_answer@.contains(message_id));
                        assert(self.processes@[i] == pre.processes@[i]);
                    }
                }
            }
            j += 1;
        }

        // Remove the table entry and, for a live emitter, its emitted trace.
        let ghost mid = *self;
        proof {
            assert(mid.messages_to_answer@ == start.messages_to_answer@);
            assert(mid.messages_to_answer@[tk as int].0 == message_id);
            assert(mid.messages_to_answer@[tk as int].1 == emitter);
            lemma_table_index_unique(mid, tk as int);
            assert forall|i: int| !(#[trigger] mid.thread_pending_id(i, message_id)) by {
                if mid.thread_pending_id(i, message_id) {
                    assert(start.thread_pending_id(i, message_id));
                }
            }
            assert forall|ii2: int, k: int| !(#[trigger] mid.other_pending_id(
                ii2,
                k,
                message_id,
            )) by {
                if mid.other_pending_id(ii2, k, message_id) {
                    assert(start.other_pending_id(ii2, k, message_id));
                }
            }
            assert forall|x: MessageId| #[trigger] start.table_contains(x) implies mid.table_contains(x) && mid.table_emitter(x) == start.table_emitter(x) by {
                let i = choose|i: int|
                    0 <= i < start.messages_to_answer@.len() && start.messages_to_answer@[i].0
                        == x;
                assert(mid.messages_to_answer@[i].0 == x);
                let j1 = choose|j2: int|
                    0 <= j2 < start.messages_to_answer@.len() && start.messages_to_answer@[j2].0
                        == x;
                let j2 = choose|j3: int|
                    0 <= j3 < mid.messages_to_answer@.len() && mid.messages_to_answer@[j3].0 == x;
                if j1 != j2 {
                    assert(start.messages_to_answer@[j1].0 != start.messages_to_answer@[j2].0);
                }
            }
        }
        let found_live = self.find_process_index(emitter);
        self.messages_to_answer.remove(tk);
        match found_live {
            Some(pi) => {
                let mut p = self.processes.remove(pi);
                let removed = remove_id_occurrence(&mut p.emitted_messages, message_id);
                self.processes.insert(pi, p);
                proof {
                    lemma_proc_index_unique(mid, pi as int);
                    assert(self.messages_to_answer@ =~= mid.messages_to_answer@.remove(tk as int));
                    assert(self.processes@ =~= mid.processes@.update(
                        pi as int,
                        self.processes@[pi as int],
                    ));
                    assert(mid.proc_of(emitter).emitted_messages@.contains(message_id));
                    let ghost ek: int = match removed {
                        Some(k) => k as int,
                        None => 0,
                    };
                    assert(removed is Some);
                    lemma_remove_emission(mid, *self, tk as int, true, ek);
                    lemma_proc_index_unique(*self, pi as int);
                    assert(!self.proc_of(emitter).emitted_messages@.contains(message_id)) by {
                        let em = mid.processes@[pi as int].emitted_messages@;
                        if self.proc_of(emitter).emitted_messages@.contains(message_id) {
                            let ghost ek2: int = match removed {
                                Some(k) => k as int,
                                None => 0,
                            };
                            let k3 = choose|k3: int|
                                0 <= k3 < em.remove(ek2).len() && em.remove(ek2)[k3] == message_id;
                            let ghost ok: int = if k3 < ek2 {
                                k3
                            } else {
                                k3 + 1
                            };
                            assert(em[ok] == message_id);
                            assert(em[ek2] == message_id);
                        }
                    }
                }
            },
            None => {
                proof {
                    assert(self.messages_to_answer@ =~= mid.messages_to_answer@.remove(tk as int));
                    assert(!mid.is_live_pid(emitter));
                    lemma_remove_emission(mid, *self, tk as int, false, 0);
                }
            },
        }
        proof {
            assert(old(self).table_contains(message_id));
            assert(old(self).table_emitter(message_id) == emitter) by {
                assert(start.table_emitter(message_id) == emitter) by {
                    lemma_table_index_unique(start, tk as int);
                }
            }
            assert forall|x: MessageId|
                #[trigger] old(self).table_contains(x) && x != message_id implies self.table_contains(x)
                && self.table_emitter(x) == old(self).table_emitter(x) by {
                assert(mid.table_contains(x) && mid.table_emitter(x) == start.table_emitter(x));
            }
            assert forall|j2: int|
                0 <= j2 < self.processes@.len() implies (#[trigger] self.processes@[j2]).pid == old(self).processes@[j2].pid
                && self.processes@[j2].messages_queue@ == old(self).processes@[j2].messages_queue@ by {
                assert(mid.processes@[j2].pid == start.processes@[j2].pid);
                assert(mid.processes@[j2].messages_queue@
                    == start.processes@[j2].messages_queue@);
            }
            if old(self).is_live_pid(emitter) {
                let pi0 = old(self).proc_index_of(emitter);
                lemma_proc_index_unique(*old(self), pi0);
                lemma_proc_index_unique(*self, pi0);
            }
            assert forall|j2: int, x: MessageId|
                0 <= j2 < self.processes@.len() && x != message_id implies ((
            #[trigger] self.processes@[j2].emitted_messages@.contains(x))
                <==> old(self).processes@[j2].emitted_messages@.contains(x)) by {
                assert(mid.processes@[j2].emitted_messages@
                    == start.processes@[j2].emitted_messages@);
                let em = mid.processes@[j2].emitted_messages@;
                if self.processes@[j2].emitted_messages@ == em {
                } else {
                    let nm = self.processes@[j2].emitted_messages@;
                    let ek3 = choose|ek3: int| 0 <= ek3 < em.len() && em[ek3] == message_id
                        && nm == em.remove(ek3);
                    if em.contains(x) {
                        let k3 = choose|k3: int| 0 <= k3 < em.len() && em[k3] == x;
                        assert(k3 != ek3);
                        let ghost nk: int = if k3 < ek3 {
                            k3
                        } else {
                            k3 - 1
                        };
                        assert(em.remove(ek3)[nk] == x);
                    }
                    if nm.contains(x) {
                        let k3 = choose|k3: int| 0 <= k3 < nm.len() && nm[k3] == x;
                        let ghost ok: int = if k3 < ek3 {
                            k3
                        } else {
                            k3 + 1
                        };
                        assert(em[ok] == x);
                    }
                }
            }
        }
        Some(emitter)
    }
}

impl Core {
    /// Delivers the answer to an outstanding message: the entry is retired
    /// and a response is queued for the emitter, or surfaced as a
    /// [`CoreRunOutcome::MessageResponse`] event when the emitter is a
    /// reserved pid. Answering an unknown message, or one whose emission
    /// still waits for a handler, silently does nothing. The driver then
    /// wakes the emitter with [`Core::wake_process`].
    ///
    /// This is also how the `emit_answer` and `emit_message_error`
    /// extrinsics land in the core: the driver passes `Ok` or `Err` and
    /// resumes the answering thread, which these extrinsics never block.
    pub fn answer_message(&mut self, message_id: MessageId, response: Result<EncodedMessage, ()>) -> (woke: Option<Pid>)
        requires
            old(self).wf(),
            response matches Ok(d) ==> d@.len() <= MAX_MESSAGE_BODY,
        ensures
            final(self).wf(),
            final(self).threads@ == old(self).threads@,
            final(self).interfaces@ == old(self).interfaces@,
            final(self).reserved_pids@ == old(self).reserved_pids@,
            final(self).processes@.len() == old(self).processes@.len(),
            forall|j: int|
                0 <= j < old(self).processes@.len() ==> (#[trigger] final(self).processes@[j]).pid
                    == old(self).processes@[j].pid,
            !old(self).table_contains(message_id) || (exists|i: int|
                #[trigger] old(self).thread_pending_id(i, message_id)) || (exists|ii: int, k: int|
                #[trigger] old(self).other_pending_id(ii, k, message_id)) ==> final(self).messages_to_answer@ == old(self).messages_to_answer@ && final(self).processes@ == old(self).processes@ && final(self).pending_events@ == old(self).pending_events@ && woke is None,
            woke matches Some(e2) ==> old(self).is_live_pid(e2) && final(self).is_live_pid(e2),
            old(self).table_contains(message_id) && !(exists|i: int|
                #[trigger] old(self).thread_pending_id(i, message_id)) && !(exists|ii: int, k: int|
                #[trigger] old(self).other_pending_id(ii, k, message_id)) ==> {
                let e = old(self).table_emitter(message_id);
                &&& !final(self).table_contains(message_id)
                &&& (forall|x: MessageId| #[trigger] final(self).table_contains(x) ==> old(self).table_contains(x))
                &&& (forall|j: int|
                    0 <= j < final(self).processes@.len() ==> !(#[trigger] final(self).processes@[j]).messages_to_answer@.contains(message_id))
                &&& (forall|j: int, x: MessageId|
                    0 <= j < final(self).processes@.len() && x != message_id ==> ((#[trigger] final(self).processes@[j].messages_to_answer@.contains(x)) <==> old(self).processes@[j].messages_to_answer@.contains(x)))
                &&& (forall|j: int, x: MessageId|
                    0 <= j < final(self).processes@.len() && x != message_id ==> ((#[trigger] final(self).processes@[j].emitted_messages@.contains(x)) <==> old(self).processes@[j].emitted_messages@.contains(x)))
                &&& (old(self).is_live_pid(e) <==> woke == Some(e))
                &&& (!old(self).is_live_pid(e) ==> woke is None)
                &&& final(self).messages_to_answer@.len() == old(self).messages_to_answer@.len()
                    - 1
                &&& (forall|x: MessageId|
                    #[trigger] old(self).table_contains(x) && x != message_id ==> final(self).table_contains(x) && final(self).table_emitter(x) == old(self).table_emitter(x))
                &&& (forall|x: MessageId| #[trigger] final(self).table_contains(x) ==> old(self).table_contains(x))
                &&& (old(self).is_live_pid(e) ==> {
                    &&& final(self).pending_events@ == old(self).pending_events@
                    &&& final(self).proc_of(e).messages_queue@.len() == old(self).proc_of(e).messages_queue@.len() + 1
                    &&& final(self).proc_of(e).messages_queue@ == old(self).proc_of(e).messages_queue@.push(final(self).proc_of(e).messages_queue@.last())
                    &&& (final(self).proc_of(e).messages_queue@.last() matches KernelMessage::Response { message_id: m2, actual_data: d2 } && m2 == message_id && (d2 is Ok <==> response is Ok) && (response matches Ok(b) ==> d2 matches Ok(b2) && b2@ == b@))
                    &&& !final(self).proc_of(e).emitted_messages@.contains(message_id)
                })
                &&& (!old(self).is_live_pid(e) ==> {
                    &&& final(self).pending_events@.len() == old(self).pending_events@.len() + 1
                    &&& (final(self).pending_events@.last() matches CoreRunOutcome::MessageResponse { message_id: m2, response: d2 } && m2 == message_id && (d2 is Ok <==> response is Ok) && (response matches Ok(b) ==> d2 matches Ok(b2) && b2@ == b@))
                    &&& forall|j: int| 0 <= j < final(self).processes@.len() ==> (#[trigger] final(self).processes@[j]).messages_queue@ == old(self).processes@[j].messages_queue@
                })
            },
    {
        let retired = self.retire_entry(message_id);
        match retired {
            None => None,
            Some(e) => {
                let ghost mid = *self;
                match self.find_process_index(e) {
                    Some(pi) => {
                        proof {
                            lemma_proc_index_unique(mid, pi as int);
                        }
                        let mut p = self.processes.remove(pi);
                        p.messages_queue.push(
                            KernelMessage::Response { message_id, actual_data: response },
                        );
                        self.processes.insert(pi, p);
                        proof {
                            assert(self.processes@ =~= mid.processes@.update(
                                pi as int,
                                self.processes@[pi as int],
                            ));
                            assert(message_id.0 >= 2) by {
                                let tk0 = choose|i: int|
                                    0 <= i < old(self).messages_to_answer@.len() && old(self).messages_to_answer@[i].0 == message_id;
                                assert(old(self).messages_to_answer@[tk0].0.0 >= 2);
                            }
                            assert forall|k2: int|
                                0 <= k2
                                    < self.processes@[pi as int].messages_queue@.len() implies wf_message(
                                #[trigger] self.processes@[pi as int].messages_queue@[k2],
                            ) by {
                                if k2 < mid.processes@[pi as int].messages_queue@.len() {
                                    assert(self.processes@[pi as int].messages_queue@[k2]
                                        == mid.processes@[pi as int].messages_queue@[k2]);
                                    assert(wf_message(
                                        mid.processes@[pi as int].messages_queue@[k2],
                                    ));
                                }
                            }
                            lemma_update_process_queue(mid, *self, pi as int);
                            lemma_proc_index_unique(*self, pi as int);
                            if old(self).is_live_pid(e) {
                                let pi0 = old(self).proc_index_of(e);
                                lemma_proc_index_unique(*old(self), pi0);
                                lemma_proc_index_unique(mid, pi0);
                                lemma_proc_index_unique(*self, pi0);
                            }
                            assert(old(self).is_live_pid(e)) by {
                                assert(mid.processes@[pi as int].pid == e);
                                assert(old(self).processes@[pi as int].pid == e);
                            }
                            assert forall|j: int|
                                0 <= j < self.processes@.len() implies !(
                            #[trigger] self.processes@[j]).messages_to_answer@.contains(
                                message_id,
                            ) by {
                                assert(!mid.processes@[j].messages_to_answer@.contains(message_id));
                                assert(self.processes@[j].messages_to_answer@
                                    == mid.processes@[j].messages_to_answer@);
                            }
                            assert forall|j: int, x: MessageId|
                                0 <= j < self.processes@.len() && x != message_id implies ((
                            #[trigger] self.processes@[j].messages_to_answer@.contains(x))
                                <==> old(self).processes@[j].messages_to_answer@.contains(x)) by {
                                assert(self.processes@[j].messages_to_answer@
                                    == mid.processes@[j].messages_to_answer@);
                            }
                            assert forall|j: int, x: MessageId|
                                0 <= j < self.processes@.len() && x != message_id implies ((
                            #[trigger] self.processes@[j].emitted_messages@.contains(x))
                                <==> old(self).processes@[j].emitted_messages@.contains(x)) by {
                                assert(self.processes@[j].emitted_messages@
                                    == mid.processes@[j].emitted_messages@);
                            }
                            assert forall|x: MessageId|
                                #[trigger] self.table_contains(x) implies old(self).table_contains(
                                x,
                            ) by {
                                assert(mid.table_contains(x) ==> old(self).table_contains(x));
                                assert(self.messages_to_answer@ == mid.messages_to_answer@);
                            }
                            assert forall|x: MessageId|
                                #[trigger] mid.table_contains(x) implies self.table_contains(x)
                                && self.table_emitter(x) == mid.table_emitter(x) by {
                                let i2 = choose|i2: int|
                                    0 <= i2 < mid.messages_to_answer@.len()
                                        && mid.messages_to_answer@[i2].0 == x;
                                assert(self.messages_to_answer@[i2].0 == x);
                                let j1 = choose|j2: int|
                                    0 <= j2 < mid.messages_to_answer@.len()
                                        && mid.messages_to_answer@[j2].0 == x;
                                let j2 = choose|j3: int|
                                    0 <= j3 < self.messages_to_answer@.len()
                                        && self.messages_to_answer@[j3].0 == x;
                                if j1 != j2 {
                                    assert(mid.messages_to_answer@[j1].0
                                        != mid.messages_to_answer@[j2].0);
                                }
                            }
                            assert(old(self).proc_index_of(e) == pi as int) by {
                                assert(old(self).processes@[pi as int].pid == e);
                                let pix = old(self).proc_index_of(e);
                                if pix != pi as int {
                                    assert(old(self).processes@[pix].pid
                                        != old(self).processes@[pi as int].pid);
                                }
                            }
                        }
                        return Some(e);
                    },
                    None => {
                        let ghost mid2 = *self;
                        self.pending_events.push(
                            CoreRunOutcome::MessageResponse { message_id, response },
                        );
                        proof {
                            lemma_wf_same_tables(mid2, *self);
                            assert(!old(self).is_live_pid(e)) by {
                                if old(self).is_live_pid(e) {
                                    let i = choose|i: int|
                                        0 <= i < old(self).processes@.len() && old(self).processes@[i].pid == e;
                                    assert(mid2.processes@[i].pid == e);
                                }
                            }
                            assert forall|x: MessageId|
                                #[trigger] self.table_contains(x) implies old(self).table_contains(
                                x,
                            ) by {
                                let i2 = choose|i2: int|
                                    0 <= i2 < self.messages_to_answer@.len()
                                        && self.messages_to_answer@[i2].0 == x;
                                assert(mid2.messages_to_answer@[i2].0 == x);
                                assert(mid2.table_contains(x));
                            }
                        }
                        return None;
                    },
                }
            },
        }
    }

    /// Abandons an outstanding message emitted by `emitter`: the entry is
    /// retired without any response being delivered; a later answer to this
    /// id silently does nothing. Cancelling an unknown id, an id emitted by
    /// someone else, or an emission still waiting for a handler does
    /// nothing.
    pub fn cancel_message(&mut self, emitter: Pid, message_id: MessageId)
        requires
            old(self).wf(),
        ensures
            final(self).wf(),
            final(self).threads@ == old(self).threads@,
            final(self).interfaces@ == old(self).interfaces@,
            final(self).reserved_pids@ == old(self).reserved_pids@,
            final(self).pending_events@ == old(self).pending_events@,
            final(self).processes@.len() == old(self).processes@.len(),
            forall|j: int|
                0 <= j < old(self).processes@.len() ==> (#[trigger] final(self).processes@[j]).pid
                    == old(self).processes@[j].pid && final(self).processes@[j].messages_queue@
                    == old(self).processes@[j].messages_queue@,
            old(self).table_contains(message_id) && old(self).table_emitter(message_id) == emitter
                && !(exists|i: int| #[trigger] old(self).thread_pending_id(i, message_id)) && !(
            exists|ii: int, k: int|
                #[trigger] old(self).other_pending_id(ii, k, message_id)) ==> !final(self).table_contains(message_id),
            !old(self).table_contains(message_id) || old(self).table_emitter(message_id) != emitter
                ==> final(self).messages_to_answer@ == old(self).messages_to_answer@,
    {
        let owner = match self.find_table_index(message_id) {
            Some(i) => {
                proof {
                    lemma_table_index_unique(*self, i as int);
                }
                self.messages_to_answer[i].1.0 == emitter.0
            },
            None => false,
        };
        if !owner {
            return ;
        }
        let _ = self.retire_entry(message_id);
    }

    /// Pops the oldest event for the outer run loop, or `Idle`.
    pub fn run(&mut self) -> (r: CoreRunOutcome)
        requires
            old(self).wf(),
        ensures
            final(self).wf(),
            final(self).threads@ == old(self).threads@,
            final(self).interfaces@ == old(self).interfaces@,
            final(self).reserved_pids@ == old(self).reserved_pids@,
            final(self).messages_to_answer@ == old(self).messages_to_answer@,
            final(self).processes@ == old(self).processes@,
            old(self).pending_events@.len() == 0 ==> r is Idle && final(self).pending_events@
                == old(self).pending_events@,
            old(self).pending_events@.len() > 0 ==> r == old(self).pending_events@[0] && final(self).pending_events@ == old(self).pending_events@.drop_first(),
    {
        let ghost pre = *self;
        if self.pending_events.len() == 0 {
            return CoreRunOutcome::Idle;
        }
        let ev = self.pending_events.remove(0);
        proof {
            lemma_wf_same_tables(pre, *self);
            assert(self.pending_events@ =~= pre.pending_events@.drop_first());
        }
        ev
    }

    /// This pid is reserved for a kernel-internal handler.
    pub fn is_reserved(&self, pid: Pid) -> (r: bool)
        ensures
            r == self.is_reserved_pid(pid),
    {
        pid_in_vec(&self.reserved_pids, pid)
    }

    /// A token for a live process.
    pub fn process_by_id(&self, pid: Pid) -> (r: Option<CoreProcess>)
        ensures
            r is Some <==> self.is_live_pid(pid),
            r matches Some(p) ==> p.pid == pid,
    {
        match self.find_process_index(pid) {
            Some(i) => {
                proof {
                    assert(self.is_live_pid(pid));
                }
                Some(CoreProcess { pid })
            },
            None => None,
        }
    }

    /// A token for a live thread.
    pub fn thread_by_id(&self, tid: ThreadId) -> (r: Option<CoreThread>)
        requires
            self.wf(),
        ensures
            r is Some <==> self.is_live_tid(tid),
            r matches Some(t) ==> t.tid == tid && t.pid == self.thread_of(tid).pid,
    {
        match self.find_thread_index(tid) {
            Some(i) => {
                proof {
                    lemma_thread_index_unique(*self, i as int);
                }
                Some(CoreThread { tid, pid: self.threads[i].pid })
            },
            None => None,
        }
    }
}

/// Access to a process within the core: a plain token holding its pid.
#[derive(Debug, Clone, Copy, PartialEq, Eq, Structural)]
pub struct CoreProcess {
    /// The process's pid.
    pub pid: Pid,
}

impl CoreProcess {
    /// Returns the [`Pid`] of the process.
    pub fn pid(&self) -> (r: Pid)
        ensures
            r == self.pid,
    {
        self.pid
    }
}

/// Access to a thread within the core: a plain token holding its ids.
#[derive(Debug, Clone, Copy, PartialEq, Eq, Structural)]
pub struct CoreThread {
    /// The thread's tid.
    pub tid: ThreadId,
    /// The pid of the process the thread belongs to.
    pub pid: Pid,
}

impl CoreThread {
    /// Returns the [`ThreadId`] of the thread.
    pub fn tid(&self) -> (r: ThreadId)
        ensures
            r == self.tid,
    {
        self.tid
    }

    /// Returns the [`Pid`] of the process the thread belongs to.
    pub fn pid(&self) -> (r: Pid)
        ensures
            r == self.pid,
    {
        self.pid
    }
}

/// Removing a handled registry entry preserves the invariant: no parked
/// emission can reference it.
proof fn lemma_remove_registry_entry(pre: Core, post: Core, ri: int)
    requires
        pre.wf(),
        0 <= ri < pre.interfaces@.len(),
        pre.interfaces@[ri].1 is Process,
        post.interfaces@ == pre.interfaces@.remove(ri),
        post.processes@ == pre.processes@,
        post.threads@ == pre.threads@,
        post.reserved_pids@ == pre.reserved_pids@,
        post.messages_to_answer@ == pre.messages_to_answer@,
    ensures
        post.wf(),
        !post.registry_contains(pre.interfaces@[ri].0@),
        forall|h2: Seq<u8>|
            #[trigger] pre.registry_contains(h2) && h2 != pre.interfaces@[ri].0@
                ==> post.registry_contains(h2) && post.registry_state(h2) == pre.registry_state(
                h2,
            ),
{
    let key = pre.interfaces@[ri].0@;
    assert forall|i: int|
        0 <= i < post.interfaces@.len() implies #[trigger] post.interfaces@[i] == pre.interfaces@[
    if i < ri {
        i
    } else {
        i + 1
    }] by {}
    assert(!post.registry_contains(key)) by {
        if post.registry_contains(key) {
            let i = choose|i: int| 0 <= i < post.interfaces@.len() && post.interfaces@[i].0@ == key;
            let ghost oi: int = if i < ri {
                i
            } else {
                i + 1
            };
            assert(pre.interfaces@[oi].0@ == key);
            assert(oi != ri);
        }
    }
    assert forall|h2: Seq<u8>|
        #[trigger] pre.registry_contains(h2) && h2 != key implies post.registry_contains(h2)
        && post.registry_state(h2) == pre.registry_state(h2) by {
        let i = pre.registry_index_of(h2);
        assert(0 <= i < pre.interfaces@.len() && pre.interfaces@[i].0@ == h2);
        assert(i != ri);
        let ghost ni: int = if i < ri {
            i
        } else {
            i - 1
        };
        assert(post.interfaces@[ni].0@ == h2);
        assert(post.registry_contains(h2));
        let j = post.registry_index_of(h2);
        let ghost oj: int = if j < ri {
            j
        } else {
            j + 1
        };
        assert(pre.interfaces@[oj].0@ == h2);
        if i != oj {
            assert(pre.interfaces@[i].0@ != pre.interfaces@[oj].0@);
        }
    }
    assert(post.pids_wf());
    assert(post.threads_wf());
    assert(post.interfaces_wf()) by {
        assert forall|i: int, j: int|
            0 <= i < j < post.interfaces@.len() implies post.interfaces@[i].0@
                != post.interfaces@[j].0@ by {
            let ghost oi: int = if i < ri {
                i
            } else {
                i + 1
            };
            let ghost oj: int = if j < ri {
                j
            } else {
                j + 1
            };
            assert(pre.interfaces@[oi].0@ != pre.interfaces@[oj].0@);
        }
        assert forall|i: int, k: int|
            0 <= i < post.interfaces@.len() && 0 <= k < requested_threads(
                post.interfaces@[i].1,
            ).len() implies {
            let t = #[trigger] requested_threads(post.interfaces@[i].1)[k];
            &&& post.is_live_tid(t)
            &&& is_emit_pending(post.thread_of(t).state)
            &&& emit_pending_interface(post.thread_of(t).state) == post.interfaces@[i].0@
        } by {
            let ghost oi: int = if i < ri {
                i
            } else {
                i + 1
            };
            assert(post.interfaces@[i] == pre.interfaces@[oi]);
            let t = requested_threads(pre.interfaces@[oi].1)[k];
            assert(pre.is_live_tid(t));
            let j = pre.thread_index_of(t);
            lemma_thread_index_unique(pre, j);
            lemma_thread_index_unique(post, j);
        }
        assert forall|i: int|
            0 <= i < post.threads@.len() && is_emit_pending(
                (#[trigger] post.threads@[i]).state,
            ) implies {
            let h2 = emit_pending_interface(post.threads@[i].state);
            &&& post.registry_contains(h2)
            &&& requested_threads(post.registry_state(h2)).contains(post.threads@[i].tid)
        } by {
            let h2 = emit_pending_interface(pre.threads@[i].state);
            assert(pre.registry_contains(h2));
            assert(requested_threads(pre.registry_state(h2)).contains(pre.threads@[i].tid));
            assert(h2 != key) by {
                if h2 == key {
                    lemma_registry_index_unique(pre, ri);
                    assert(pre.registry_state(h2) is Process);
                    assert(requested_threads(pre.registry_state(h2)).len() == 0);
                }
            }
        }
    }
    assert(post.table_wf());
    assert(post.emitted_wf());
    assert(post.owed_wf());
    assert(post.pending_wf()) by {
        assert forall|i: int, id: MessageId|
            #[trigger] post.thread_pending_id(i, id) implies post.table_contains(id)
            && post.table_emitter(id) == post.threads@[i].pid && (forall|j: int|
            0 <= j < post.processes@.len()
                ==> !(#[trigger] post.processes@[j]).messages_to_answer@.contains(id)) by {
            assert(pre.thread_pending_id(i, id));
        }
        assert forall|i1: int, i2: int, id: MessageId|
            #[trigger] post.thread_pending_id(i1, id) && #[trigger] post.thread_pending_id(
                i2,
                id,
            ) implies i1 == i2 by {
            assert(pre.thread_pending_id(i1, id));
            assert(pre.thread_pending_id(i2, id));
        }
        assert forall|ii: int, k: int, id: MessageId|
            #[trigger] post.other_pending_id(ii, k, id) implies post.table_contains(id)
            && post.table_emitter(id) == requested_other(post.interfaces@[ii].1)[k].emitter_pid
            && post.is_reserved_pid(requested_other(post.interfaces@[ii].1)[k].emitter_pid) && (
        forall|j: int|
            0 <= j < post.processes@.len()
                ==> !(#[trigger] post.processes@[j]).messages_to_answer@.contains(id)) by {
            let ghost oi: int = if ii < ri {
                ii
            } else {
                ii + 1
            };
            assert(pre.other_pending_id(oi, k, id));
        }
        assert forall|ii1: int, k1: int, ii2: int, k2: int, id: MessageId|
            #[trigger] post.other_pending_id(ii1, k1, id) && #[trigger] post.other_pending_id(
                ii2,
                k2,
                id,
            ) implies ii1 == ii2 && k1 == k2 by {
            let ghost o1: int = if ii1 < ri {
                ii1
            } else {
                ii1 + 1
            };
            let ghost o2: int = if ii2 < ri {
                ii2
            } else {
                ii2 + 1
            };
            assert(pre.other_pending_id(o1, k1, id));
            assert(pre.other_pending_id(o2, k2, id));
        }
        assert forall|i: int, ii: int, k: int, id: MessageId|
            #[trigger] post.thread_pending_id(i, id) implies !(#[trigger] post.other_pending_id(
            ii,
            k,
            id,
        )) by {
            assert(pre.thread_pending_id(i, id));
            if post.other_pending_id(ii, k, id) {
                let ghost oi: int = if ii < ri {
                    ii
                } else {
                    ii + 1
                };
                assert(pre.other_pending_id(oi, k, id));
            }
        }
    }
    assert(post.queues_wf());
}

/// Removing a thread that is not parked on an emission preserves the
/// invariant.
proof fn lemma_remove_thread(pre: Core, post: Core, ti: int)
    requires
        pre.wf(),
        0 <= ti < pre.threads@.len(),
        !(pre.threads@[ti].state is EmitPending),
        post.threads@ == pre.threads@.remove(ti),
        post.processes@ == pre.processes@,
        post.interfaces@ == pre.interfaces@,
        post.reserved_pids@ == pre.reserved_pids@,
        post.messages_to_answer@ == pre.messages_to_answer@,
    ensures
        post.wf(),
        !post.is_live_tid(pre.threads@[ti].tid),
{
    let tid = pre.threads@[ti].tid;
    assert forall|i: int|
        0 <= i < post.threads@.len() implies #[trigger] post.threads@[i] == pre.threads@[if i < ti {
        i
    } else {
        i + 1
    }] by {}
    assert(!post.is_live_tid(tid)) by {
        if post.is_live_tid(tid) {
            let i = choose|i: int| 0 <= i < post.threads@.len() && post.threads@[i].tid == tid;
            let ghost oi: int = if i < ti {
                i
            } else {
                i + 1
            };
            assert(pre.threads@[oi].tid == tid);
            assert(oi != ti);
        }
    }
    assert(post.pids_wf());
    assert(post.threads_wf()) by {
        assert forall|i: int, j: int|
            0 <= i < j < post.threads@.len() implies post.threads@[i].tid
                != post.threads@[j].tid by {
            let ghost oi: int = if i < ti {
                i
            } else {
                i + 1
            };
            let ghost oj: int = if j < ti {
                j
            } else {
                j + 1
            };
            assert(pre.threads@[oi].tid != pre.threads@[oj].tid);
        }
        assert forall|i: int|
            0 <= i < post.threads@.len() implies post.is_live_pid(
            (#[trigger] post.threads@[i]).pid,
        ) && (#[trigger] post.threads@[i]).tid.0 >= 2 && wf_thread_state(post.threads@[i].state) by {
            let ghost oi: int = if i < ti {
                i
            } else {
                i + 1
            };
            assert(post.threads@[i] == pre.threads@[oi]);
            assert(pre.is_live_pid(pre.threads@[oi].pid));
        }
    }
    assert(post.interfaces_wf()) by {
        assert forall|i: int, k: int|
            0 <= i < post.interfaces@.len() && 0 <= k < requested_threads(
                post.interfaces@[i].1,
            ).len() implies {
            let t = #[trigger] requested_threads(post.interfaces@[i].1)[k];
            &&& post.is_live_tid(t)
            &&& is_emit_pending(post.thread_of(t).state)
            &&& emit_pending_interface(post.thread_of(t).state) == post.interfaces@[i].0@
        } by {
            let t = requested_threads(pre.interfaces@[i].1)[k];
            assert(pre.is_live_tid(t));
            let j = pre.thread_index_of(t);
            lemma_thread_index_unique(pre, j);
            assert(t != tid) by {
                if t == tid {
                    assert(is_emit_pending(pre.threads@[ti].state));
                }
            }
            assert(j != ti);
            let ghost nj: int = if j < ti {
                j
            } else {
                j - 1
            };
            assert(post.threads@[nj] == pre.threads@[j]);
            assert(post.is_live_tid(t));
            lemma_thread_index_unique(post, nj);
        }
        assert forall|i: int|
            0 <= i < post.threads@.len() && is_emit_pending(
                (#[trigger] post.threads@[i]).state,
            ) implies {
            let h2 = emit_pending_interface(post.threads@[i].state);
            &&& post.registry_contains(h2)
            &&& requested_threads(post.registry_state(h2)).contains(post.threads@[i].tid)
        } by {
            let ghost oi: int = if i < ti {
                i
            } else {
                i + 1
            };
            assert(post.threads@[i] == pre.threads@[oi]);
            let h2 = emit_pending_interface(pre.threads@[oi].state);
            assert(pre.registry_contains(h2));
            assert(requested_threads(pre.registry_state(h2)).contains(pre.threads@[oi].tid));
        }
    }
    assert(post.table_wf());
    assert(post.emitted_wf());
    assert(post.owed_wf());
    assert(post.pending_wf()) by {
        assert forall|i: int, id: MessageId|
            #[trigger] post.thread_pending_id(i, id) implies post.table_contains(id)
            && post.table_emitter(id) == post.threads@[i].pid && (forall|j: int|
            0 <= j < post.processes@.len()
                ==> !(#[trigger] post.processes@[j]).messages_to_answer@.contains(id)) by {
            let ghost oi: int = if i < ti {
                i
            } else {
                i + 1
            };
            assert(pre.thread_pending_id(oi, id));
        }
        assert forall|i1: int, i2: int, id: MessageId|
            #[trigger] post.thread_pending_id(i1, id) && #[trigger] post.thread_pending_id(
                i2,
                id,
            ) implies i1 == i2 by {
            let ghost o1: int = if i1 < ti {
                i1
            } else {
                i1 + 1
            };
            let ghost o2: int = if i2 < ti {
                i2
            } else {
                i2 + 1
            };
            assert(pre.thread_pending_id(o1, id));
            assert(pre.thread_pending_id(o2, id));
        }
        assert forall|ii: int, k: int, id: MessageId|
            #[trigger] post.other_pending_id(ii, k, id) implies post.table_contains(id)
            && post.table_emitter(id) == requested_other(post.interfaces@[ii].1)[k].emitter_pid
            && post.is_reserved_pid(requested_other(post.interfaces@[ii].1)[k].emitter_pid) && (
        forall|j: int|
            0 <= j < post.processes@.len()
                ==> !(#[trigger] post.processes@[j]).messages_to_answer@.contains(id)) by {
            assert(pre.other_pending_id(ii, k, id));
        }
        assert forall|ii1: int, k1: int, ii2: int, k2: int, id: MessageId|
            #[trigger] post.other_pending_id(ii1, k1, id) && #[trigger] post.other_pending_id(
                ii2,
                k2,
                id,
            ) implies ii1 == ii2 && k1 == k2 by {
            assert(pre.other_pending_id(ii1, k1, id));
            assert(pre.other_pending_id(ii2, k2, id));
        }
        assert forall|i: int, ii: int, k: int, id: MessageId|
            #[trigger] post.thread_pending_id(i, id) implies !(#[trigger] post.other_pending_id(
            ii,
            k,
            id,
        )) by {
            let ghost oi: int = if i < ti {
                i
            } else {
                i + 1
            };
            assert(pre.thread_pending_id(oi, id));
            if post.other_pending_id(ii, k, id) {
                assert(pre.other_pending_id(ii, k, id));
            }
        }
    }
    assert(post.queues_wf());
}

/// Removing a fully drained process record preserves the invariant.
proof fn lemma_remove_process(pre: Core, post: Core, pi: int)
    requires
        pre.wf(),
        0 <= pi < pre.processes@.len(),
        pre.processes@[pi].emitted_messages@.len() == 0,
        pre.processes@[pi].messages_to_answer@.len() == 0,
        forall|i: int|
            0 <= i < pre.threads@.len() ==> (#[trigger] pre.threads@[i]).pid
                != pre.processes@[pi].pid,
        forall|i: int|
            0 <= i < pre.interfaces@.len() ==> !((#[trigger] pre.interfaces@[i]).1
                == InterfaceState::Process(pre.processes@[pi].pid)),
        forall|j: int|
            0 <= j < pre.messages_to_answer@.len() ==> (#[trigger] pre.messages_to_answer@[j]).1
                != pre.processes@[pi].pid,
        post.processes@ == pre.processes@.remove(pi),
        post.threads@ == pre.threads@,
        post.interfaces@ == pre.interfaces@,
        post.reserved_pids@ == pre.reserved_pids@,
        post.messages_to_answer@ == pre.messages_to_answer@,
    ensures
        post.wf(),
        !post.is_live_pid(pre.processes@[pi].pid),
{
    let pid = pre.processes@[pi].pid;
    assert forall|i: int|
        0 <= i < post.processes@.len() implies #[trigger] post.processes@[i] == pre.processes@[
    if i < pi {
        i
    } else {
        i + 1
    }] by {}
    assert(!post.is_live_pid(pid)) by {
        if post.is_live_pid(pid) {
            let i = choose|i: int| 0 <= i < post.processes@.len() && post.processes@[i].pid == pid;
            let ghost oi: int = if i < pi {
                i
            } else {
                i + 1
            };
            assert(pre.processes@[oi].pid == pid);
            assert(oi != pi);
        }
    }
    assert forall|p: Pid| pre.is_live_pid(p) && p != pid implies post.is_live_pid(p) by {
        let i = choose|i: int| 0 <= i < pre.processes@.len() && pre.processes@[i].pid == p;
        assert(i != pi);
        let ghost ni: int = if i < pi {
            i
        } else {
            i - 1
        };
        assert(post.processes@[ni].pid == p);
    }
    assert(post.pids_wf()) by {
        assert forall|i: int, j: int|
            0 <= i < j < post.processes@.len() implies post.processes@[i].pid
                != post.processes@[j].pid by {
            let ghost oi: int = if i < pi {
                i
            } else {
                i + 1
            };
            let ghost oj: int = if j < pi {
                j
            } else {
                j + 1
            };
            assert(pre.processes@[oi].pid != pre.processes@[oj].pid);
        }
        assert forall|i: int|
            0 <= i < post.processes@.len() implies (#[trigger] post.processes@[i]).pid.0 >= 2
                && !post.reserved_pids@.contains(post.processes@[i].pid) by {
            let ghost oi: int = if i < pi {
                i
            } else {
                i + 1
            };
            assert(post.processes@[i] == pre.processes@[oi]);
            assert(pre.processes@[oi].pid.0 >= 2 && !pre.reserved_pids@.contains(
                pre.processes@[oi].pid,
            ));
        }
    }
    assert(post.threads_wf()) by {
        assert forall|i: int|
            0 <= i < post.threads@.len() implies post.is_live_pid(
            (#[trigger] post.threads@[i]).pid,
        ) by {
            assert(pre.is_live_pid(pre.threads@[i].pid));
            assert(pre.threads@[i].pid != pid);
        }
    }
    assert(post.interfaces_wf()) by {
        assert forall|i: int, k: int|
            0 <= i < post.interfaces@.len() && 0 <= k < requested_threads(
                post.interfaces@[i].1,
            ).len() implies {
            let t = #[trigger] requested_threads(post.interfaces@[i].1)[k];
            &&& post.is_live_tid(t)
            &&& is_emit_pending(post.thread_of(t).state)
            &&& emit_pending_interface(post.thread_of(t).state) == post.interfaces@[i].0@
        } by {
            let t = requested_threads(pre.interfaces@[i].1)[k];
            assert(pre.is_live_tid(t));
            let j = pre.thread_index_of(t);
            lemma_thread_index_unique(pre, j);
            lemma_thread_index_unique(post, j);
        }
        assert forall|i: int|
            0 <= i < post.interfaces@.len() implies ((#[trigger] post.interfaces@[i]).1 matches
        InterfaceState::Process(p) ==> post.is_live_pid(p) || post.is_reserved_pid(p)) by {
            match pre.interfaces@[i].1 {
                InterfaceState::Process(p) => {
                    assert(pre.is_live_pid(p) || pre.is_reserved_pid(p));
                    assert(!(pre.interfaces@[i].1 == InterfaceState::Process(pid)));
                    assert(p != pid);
                },
                _ => {},
            }
        }
    }
    assert(post.table_wf()) by {
        assert forall|i: int|
            0 <= i < post.messages_to_answer@.len() implies post.is_live_pid(
            (#[trigger] post.messages_to_answer@[i]).1,
        ) || post.is_reserved_pid(post.messages_to_answer@[i].1) by {
            assert(pre.is_live_pid(pre.messages_to_answer@[i].1) || pre.is_reserved_pid(
                pre.messages_to_answer@[i].1,
            ));
            assert(pre.messages_to_answer@[i].1 != pid);
        }
    }
    assert(post.emitted_wf()) by {
        assert forall|i: int, k: int|
            0 <= i < post.processes@.len() && 0 <= k
                < post.processes@[i].emitted_messages@.len() implies post.table_contains(
            #[trigger] post.processes@[i].emitted_messages@[k],
        ) && post.table_emitter(post.processes@[i].emitted_messages@[k])
            == post.processes@[i].pid by {
            let ghost oi: int = if i < pi {
                i
            } else {
                i + 1
            };
            assert(post.processes@[i] == pre.processes@[oi]);
            assert(pre.table_contains(pre.processes@[oi].emitted_messages@[k]));
            assert(pre.table_emitter(pre.processes@[oi].emitted_messages@[k])
                == pre.processes@[oi].pid);
        }
        assert forall|i: int, k1: int, k2: int|
            0 <= i < post.processes@.len() && 0 <= k1 < k2
                < post.processes@[i].emitted_messages@.len()
                implies #[trigger] post.processes@[i].emitted_messages@[k1]
            != #[trigger] post.processes@[i].emitted_messages@[k2] by {
            let ghost oi: int = if i < pi {
                i
            } else {
                i + 1
            };
            assert(post.processes@[i] == pre.processes@[oi]);
            assert(pre.processes@[oi].emitted_messages@[k1]
                != pre.processes@[oi].emitted_messages@[k2]);
        }
        assert forall|j: int|
            0 <= j < post.messages_to_answer@.len() && post.is_live_pid(
                (#[trigger] post.messages_to_answer@[j]).1,
            ) implies post.proc_of(post.messages_to_answer@[j].1).emitted_messages@.contains(
            post.messages_to_answer@[j].0,
        ) by {
            let p = post.messages_to_answer@[j].1;
            assert(p != pid);
            assert(post.is_live_pid(p) ==> pre.is_live_pid(p)) by {
                if post.is_live_pid(p) {
                    let i = choose|i: int|
                        0 <= i < post.processes@.len() && post.processes@[i].pid == p;
                    let ghost oi: int = if i < pi {
                        i
                    } else {
                        i + 1
                    };
                    assert(pre.processes@[oi].pid == p);
                }
            }
            assert(pre.proc_of(p).emitted_messages@.contains(pre.messages_to_answer@[j].0));
            let i1 = pre.proc_index_of(p);
            lemma_proc_index_unique(pre, i1);
            assert(i1 != pi);
            let ghost ni: int = if i1 < pi {
                i1
            } else {
                i1 - 1
            };
            assert(post.processes@[ni] == pre.processes@[i1]);
            lemma_proc_index_unique(post, ni);
        }
    }
    assert(post.owed_wf()) by {
        assert forall|i: int, k: int|
            0 <= i < post.processes@.len() && 0 <= k
                < post.processes@[i].messages_to_answer@.len() implies post.table_contains(
            #[trigger] post.processes@[i].messages_to_answer@[k],
        ) by {
            let ghost oi: int = if i < pi {
                i
            } else {
                i + 1
            };
            assert(post.processes@[i] == pre.processes@[oi]);
            assert(pre.table_contains(pre.processes@[oi].messages_to_answer@[k]));
        }
        assert forall|i: int, k1: int, k2: int|
            0 <= i < post.processes@.len() && 0 <= k1 < k2
                < post.processes@[i].messages_to_answer@.len()
                implies #[trigger] post.processes@[i].messages_to_answer@[k1]
            != #[trigger] post.processes@[i].messages_to_answer@[k2] by {
            let ghost oi: int = if i < pi {
                i
            } else {
                i + 1
            };
            assert(post.processes@[i] == pre.processes@[oi]);
            assert(pre.processes@[oi].messages_to_answer@[k1]
                != pre.processes@[oi].messages_to_answer@[k2]);
        }
        assert forall|i1: int, i2: int, k1: int, k2: int|
            0 <= i1 < post.processes@.len() && 0 <= i2 < post.processes@.len() && i1 != i2 && 0
                <= k1 < post.processes@[i1].messages_to_answer@.len() && 0 <= k2
                < post.processes@[i2].messages_to_answer@.len()
                implies #[trigger] post.processes@[i1].messages_to_answer@[k1]
            != #[trigger] post.processes@[i2].messages_to_answer@[k2] by {
            let ghost o1: int = if i1 < pi {
                i1
            } else {
                i1 + 1
            };
            let ghost o2: int = if i2 < pi {
                i2
            } else {
                i2 + 1
            };
            assert(post.processes@[i1] == pre.processes@[o1]);
            assert(post.processes@[i2] == pre.processes@[o2]);
            assert(pre.processes@[o1].messages_to_answer@[k1]
                != pre.processes@[o2].messages_to_answer@[k2]);
        }
    }
    assert(post.pending_wf()) by {
        assert forall|i: int, id: MessageId|
            #[trigger] post.thread_pending_id(i, id) implies post.table_contains(id)
            && post.table_emitter(id) == post.threads@[i].pid && (forall|j: int|
            0 <= j < post.processes@.len()
                ==> !(#[trigger] post.processes@[j]).messages_to_answer@.contains(id)) by {
            assert(pre.thread_pending_id(i, id));
            assert forall|j: int|
                0 <= j < post.processes@.len() implies !(
            #[trigger] post.processes@[j]).messages_to_answer@.contains(id) by {
                let ghost oj: int = if j < pi {
                    j
                } else {
                    j + 1
                };
                assert(post.processes@[j] == pre.processes@[oj]);
                assert(!pre.processes@[oj].messages_to_answer@.contains(id));
            }
        }
        assert forall|i1: int, i2: int, id: MessageId|
            #[trigger] post.thread_pending_id(i1, id) && #[trigger] post.thread_pending_id(
                i2,
                id,
            ) implies i1 == i2 by {
            assert(pre.thread_pending_id(i1, id));
            assert(pre.thread_pending_id(i2, id));
        }
        assert forall|ii: int, k: int, id: MessageId|
            #[trigger] post.other_pending_id(ii, k, id) implies post.table_contains(id)
            && post.table_emitter(id) == requested_other(post.interfaces@[ii].1)[k].emitter_pid
            && post.is_reserved_pid(requested_other(post.interfaces@[ii].1)[k].emitter_pid) && (
        forall|j: int|
            0 <= j < post.processes@.len()
                ==> !(#[trigger] post.processes@[j]).messages_to_answer@.contains(id)) by {
            assert(pre.other_pending_id(ii, k, id));
            assert forall|j: int|
                0 <= j < post.processes@.len() implies !(
            #[trigger] post.processes@[j]).messages_to_answer@.contains(id) by {
                let ghost oj: int = if j < pi {
                    j
                } else {
                    j + 1
                };
                assert(post.processes@[j] == pre.processes@[oj]);
                assert(!pre.processes@[oj].messages_to_answer@.contains(id));
            }
        }
        assert forall|ii1: int, k1: int, ii2: int, k2: int, id: MessageId|
            #[trigger] post.other_pending_id(ii1, k1, id) && #[trigger] post.other_pending_id(
                ii2,
                k2,
                id,
            ) implies ii1 == ii2 && k1 == k2 by {
            assert(pre.other_pending_id(ii1, k1, id));
            assert(pre.other_pending_id(ii2, k2, id));
        }
        assert forall|i: int, ii: int, k: int, id: MessageId|
            #[trigger] post.thread_pending_id(i, id) implies !(#[trigger] post.other_pending_id(
            ii,
            k,
            id,
        )) by {
            assert(pre.thread_pending_id(i, id));
            if post.other_pending_id(ii, k, id) {
                assert(pre.other_pending_id(ii, k, id));
            }
        }
    }
    assert(post.queues_wf()) by {
        assert forall|i: int, k: int|
            0 <= i < post.processes@.len() && 0 <= k
                < post.processes@[i].messages_queue@.len() implies wf_message(
            #[trigger] post.processes@[i].messages_queue@[k],
        ) by {
            let ghost oi: int = if i < pi {
                i
            } else {
                i + 1
            };
            assert(post.processes@[i] == pre.processes@[oi]);
            assert(wf_message(pre.processes@[oi].messages_queue@[k]));
        }
    }
}

/// Copies a list of message ids.
fn clone_message_ids(v: &Vec<MessageId>) -> (r: Vec<MessageId>)
    ensures
        r@ == v@,
{
    let mut out: Vec<MessageId> = Vec::new();
    let mut i: usize = 0;
    while i < v.len()
        invariant
            i <= v@.len(),
            out@ == v@.subrange(0, i as int),
        decreases v@.len() - i,
    {
        out.push(v[i]);
        proof {
            assert(out@ =~= v@.subrange(0, i + 1 as int));
        }
        i += 1;
    }
    proof {
        assert(out@ =~= v@);
    }
    out
}

/// Copies a list of interface hashes.
fn clone_hashes(v: &Vec<InterfaceHash>) -> (r: Vec<InterfaceHash>)
    ensures
        r@.len() == v@.len(),
        forall|i: int| 0 <= i < v@.len() ==> (#[trigger] r@[i])@ == v@[i]@,
{
    let mut out: Vec<InterfaceHash> = Vec::new();
    let mut i: usize = 0;
    while i < v.len()
        invariant
            i <= v@.len(),
            out@.len() == i,
            forall|j: int| 0 <= j < i ==> (#[trigger] out@[j])@ == v@[j]@,
        decreases v@.len() - i,
    {
        out.push(v[i].clone());
        i += 1;
    }
    out
}

impl Core {
    /// Destroys the process `pid` after the engine reported it finished (or
    /// to abort it). Its parked emissions are withdrawn, every message it
    /// still owed an answer to is answered with `Err` towards its emitter,
    /// its own outstanding messages are cancelled, its registered interfaces
    /// are freed, and the handler of every interface it used is notified
    /// with a process-destroyed message. A
    /// [`CoreRunOutcome::ProgramFinished`] event reports what was cleaned
    /// up. Returns the pids that received messages; the driver wakes each
    /// with [`Core::wake_process`].
    #[verifier::rlimit(100)]
    #[verifier::spinoff_prover]
    pub fn process_finished(&mut self, pid: Pid) -> (woken: Vec<Pid>)
        requires
            old(self).wf(),
            old(self).is_live_pid(pid),
        ensures
            final(self).wf(),
            final(self).reserved_pids@ == old(self).reserved_pids@,
            !final(self).is_live_pid(pid),
            forall|i: int|
                0 <= i < final(self).threads@.len() ==> (#[trigger] final(self).threads@[i]).pid
                    != pid,
            forall|j: int|
                0 <= j < final(self).messages_to_answer@.len() ==> (#[trigger] final(self).messages_to_answer@[j]).1 != pid,
            forall|k: int|
                0 <= k < old(self).proc_of(pid).emitted_messages@.len() ==> !final(self).table_contains(#[trigger] old(self).proc_of(pid).emitted_messages@[k]),
            forall|k: int|
                0 <= k < old(self).proc_of(pid).messages_to_answer@.len() ==> !final(self).table_contains(#[trigger] old(self).proc_of(pid).messages_to_answer@[k]),
            forall|i: int|
                0 <= i < final(self).interfaces@.len() ==> !((#[trigger] final(self).interfaces@[i]).1 == InterfaceState::Process(pid)),
            final(self).pending_events@.len() >= old(self).pending_events@.len() + 1,
            (final(self).pending_events@.last() matches CoreRunOutcome::ProgramFinished {
                pid: p2,
                unhandled_messages,
                cancelled_messages,
                unregistered_interfaces,
            } && p2 == pid && unhandled_messages@ == old(self).proc_of(pid).messages_to_answer@
                && cancelled_messages@ == old(self).proc_of(pid).emitted_messages@),
    {
        let pi0 = match self.find_process_index(pid) {
            Some(i) => i,
            None => {
                proof {
                    assert(false);
                }
                0
            },
        };
        proof {
            lemma_proc_index_unique(*self, pi0 as int);
        }
        let unhandled = clone_message_ids(&self.processes[pi0].messages_to_answer);
        let cancelled = clone_message_ids(&self.processes[pi0].emitted_messages);
        let used = clone_hashes(&self.processes[pi0].used_interfaces);
        let ghost start = *self;

        // Withdraw the parked emissions of this process's threads.
        let mut i: usize = 0;
        while i < self.threads.len()
            invariant
                self.wf(),
                self.threads@.len() == start.threads@.len(),
                self.processes@ == start.processes@,
                self.reserved_pids@ == start.reserved_pids@,
                self.messages_to_answer@ == start.messages_to_answer@,
                self.pending_events@ == start.pending_events@,
                self.interfaces@.len() == start.interfaces@.len(),
                forall|j: int|
                    0 <= j < start.interfaces@.len() ==> (#[trigger] self.interfaces@[j]).0@
                        == start.interfaces@[j].0@ && (self.interfaces@[j].1 is Process
                        <==> start.interfaces@[j].1 is Process) && (self.interfaces@[j].1 matches
                    InterfaceState::Process(p) ==> start.interfaces@[j].1 == InterfaceState::Process(
                        p,
                    )),
                forall|j: int|
                    0 <= j < start.threads@.len() ==> (#[trigger] self.threads@[j]).tid
                        == start.threads@[j].tid && self.threads@[j].pid == start.threads@[j].pid,
                forall|j: int|
                    0 <= j < i ==> !((#[trigger] self.threads@[j]).pid == pid
                        && self.threads@[j].state is EmitPending),
            decreases self.threads@.len() - i,
        {
            let is_pending_here = match &self.threads[i].state {
                ThreadState::EmitPending { .. } => self.threads[i].pid.0 == pid.0,
                _ => false,
            };
            if is_pending_here {
                let ghost pre = *self;
                let tid0 = self.threads[i].tid;
                proof {
                    lemma_thread_index_unique(pre, i as int);
                }
                let iface = match &self.threads[i].state {
                    ThreadState::EmitPending { interface, .. } => interface.clone(),
                    _ => {
                        proof {
                            assert(false);
                        }
                        InterfaceHash([0u8; 32])
                    },
                };
                let ri = match self.find_interface_index(&iface) {
                    Some(r) => r,
                    None => {
                        proof {
                            assert(false);
                        }
                        0
                    },
                };
                proof {
                    lemma_registry_index_unique(pre, ri as int);
                }
                // Locate the thread in the waiting list.
                let li = {
                    let mut li: usize = 0;
                    let mut found: bool = false;
                    let r = match &self.interfaces[ri].1 {
                        InterfaceState::Requested { threads, .. } => {
                            let mut k: usize = 0;
                            let mut out: usize = 0;
                            let mut got = false;
                            while k < threads.len()
                                invariant
                                    k <= threads@.len(),
                                    got ==> 0 <= out < threads@.len() && threads@[out as int]
                                        == tid0,
                                    !got ==> forall|j: int| 0 <= j < k ==> threads@[j] != tid0,
                                decreases threads@.len() - k,
                            {
                                if threads[k].0 == tid0.0 {
                                    if !got {
                                        out = k;
                                        got = true;
                                    }
                                }
                                k += 1;
                            }
                            proof {
                                if !got {
                                    assert(requested_threads(pre.registry_state(iface@)).contains(
                                        tid0,
                                    ));
                                    let j = choose|j: int|
                                        0 <= j < requested_threads(
                                            pre.registry_state(iface@),
                                        ).len() && requested_threads(pre.registry_state(iface@))[j]
                                            == tid0;
                                    assert(threads@[j] == tid0);
                                }
                            }
                            out
                        },
                        InterfaceState::Process(_) => {
                            proof {
                                assert(false);
                            }
                            0
                        },
                    };
                    r
                };
                // Drop the thread from the list and make it runnable.
                let mut t = self.threads.remove(i);
                t.state = ThreadState::Runnable;
                self.threads.insert(i, t);
                let (key, st2) = self.interfaces.remove(ri);
                let new_st = match st2 {
                    InterfaceState::Requested { mut threads, other } => {
                        threads.remove(li);
                        InterfaceState::Requested { threads, other }
                    },
                    InterfaceState::Process(_) => {
                        proof {
                            assert(false);
                        }
                        InterfaceState::Process(Pid(0))
                    },
                };
                self.interfaces.insert(ri, (key, new_st));
                proof {
                    assert(self.threads@ =~= pre.threads@.update(i as int, self.threads@[i as int]));
                    assert(self.interfaces@ =~= pre.interfaces@.update(
                        ri as int,
                        self.interfaces@[ri as int],
                    ));
                    assert(requested_threads(self.interfaces@[ri as int].1)
                        =~= requested_threads(pre.interfaces@[ri as int].1).remove(li as int));
                    assert(requested_other(self.interfaces@[ri as int].1) =~= requested_other(
                        pre.interfaces@[ri as int].1,
                    ));
                    lemma_unpark(pre, *self, i as int, ri as int, li as int);
                }
            }
            i += 1;
        }

        // Answer every message this process still owed with an error.
        let ghost after_unpark = *self;
        let mut woken: Vec<Pid> = Vec::new();
        let mut k: usize = 0;
        while k < unhandled.len()
            invariant
                self.wf(),
                unhandled@ == start.proc_of(pid).messages_to_answer@,
                0 <= pi0 < self.processes@.len(),
                self.processes@.len() == start.processes@.len(),
                self.processes@[pi0 as int].pid == pid,
                self.threads@ == after_unpark.threads@,
                self.interfaces@ == after_unpark.interfaces@,
                self.reserved_pids@ == start.reserved_pids@,
                forall|j: int|
                    0 <= j < start.processes@.len() ==> (#[trigger] self.processes@[j]).pid
                        == start.processes@[j].pid,
                forall|j: int|
                    0 <= j < self.threads@.len() ==> !((#[trigger] self.threads@[j]).pid == pid
                        && self.threads@[j].state is EmitPending),
                forall|j: int| 0 <= j < k ==> !self.table_contains(#[trigger] unhandled@[j]),
                forall|x: MessageId|
                    unhandled@.contains(x) && #[trigger] self.table_contains(x)
                        ==> self.processes@[pi0 as int].messages_to_answer@.contains(x),
                forall|x: MessageId|
                    #[trigger] self.table_contains(x)
                        ==> (self.processes@[pi0 as int].emitted_messages@.contains(x)
                        <==> start.processes@[pi0 as int].emitted_messages@.contains(x)),
                forall|x: MessageId|
                    #[trigger] self.table_contains(x)
                        ==> (self.processes@[pi0 as int].messages_to_answer@.contains(x)
                        <==> start.processes@[pi0 as int].messages_to_answer@.contains(x)),
                self.pending_events@.len() >= start.pending_events@.len(),
                forall|w: int| 0 <= w < woken@.len() ==> self.is_live_pid(#[trigger] woken@[w]),
            decreases unhandled@.len() - k,
        {
            let ghost pre = *self;
            let id = unhandled[k];
            proof {
                assert(unhandled@.contains(id)) by {
                    assert(unhandled@[k as int] == id);
                }
                if pre.table_contains(id) {
                    assert(pre.processes@[pi0 as int].messages_to_answer@.contains(id));
                    if exists|i2: int| #[trigger] pre.thread_pending_id(i2, id) {
                        let i2 = choose|i2: int| #[trigger] pre.thread_pending_id(i2, id);
                        assert(!pre.processes@[pi0 as int].messages_to_answer@.contains(id));
                    }
                    if exists|ii2: int, k2: int| #[trigger] pre.other_pending_id(ii2, k2, id) {
                        let (ii2, k2) = choose|ii2: int, k2: int|
                            #[trigger] pre.other_pending_id(ii2, k2, id);
                        assert(!pre.processes@[pi0 as int].messages_to_answer@.contains(id));
                    }
                }
            }
            let w = self.answer_message(id, Err(()));
            match w {
                Some(e) => {
                    woken.push(e);
                },
                None => {},
            }
            proof {
                assert forall|j: int| 0 <= j < k + 1 implies !self.table_contains(
                    #[trigger] unhandled@[j],
                ) by {
                    if j < k {
                        if self.table_contains(unhandled@[j]) {
                            assert(pre.table_contains(unhandled@[j]));
                        }
                    }
                }
                assert forall|w2: int|
                    0 <= w2 < woken@.len() implies self.is_live_pid(#[trigger] woken@[w2]) by {
                    if w2 < woken@.len() - 1 || w is None {
                        assert(pre.is_live_pid(woken@[w2]));
                        let i2 = choose|i2: int|
                            0 <= i2 < pre.processes@.len() && pre.processes@[i2].pid == woken@[w2];
                        assert(self.processes@[i2].pid == woken@[w2]);
                    }
                }
                assert forall|x: MessageId|
                    unhandled@.contains(x) && #[trigger] self.table_contains(x)
                        implies self.processes@[pi0 as int].messages_to_answer@.contains(x) by {
                    assert(pre.table_contains(x));
                    assert(x != id);
                    assert(pre.processes@[pi0 as int].messages_to_answer@.contains(x));
                }
                assert forall|x: MessageId|
                    #[trigger] self.table_contains(x) implies (
                self.processes@[pi0 as int].emitted_messages@.contains(x)
                    <==> start.processes@[pi0 as int].emitted_messages@.contains(x)) by {
                    assert(pre.table_contains(x));
                    assert(x != id);
                }
                assert forall|x: MessageId|
                    #[trigger] self.table_contains(x) implies (
                self.processes@[pi0 as int].messages_to_answer@.contains(x)
                    <==> start.processes@[pi0 as int].messages_to_answer@.contains(x)) by {
                    assert(pre.table_contains(x));
                    assert(x != id);
                }
            }
            k += 1;
        }

        // Cancel the messages this process emitted and still awaited.
        let ghost after_err = *self;
        proof {
            assert(self.processes@[pi0 as int].messages_to_answer@.len() == 0) by {
                let ow = self.processes@[pi0 as int].messages_to_answer@;
                if ow.len() > 0 {
                    let x = ow[0];
                    assert(ow.contains(x));
                    assert(self.table_contains(x)) by {
                        lemma_proc_index_unique(*self, pi0 as int);
                    }
                    assert(start.processes@[pi0 as int].messages_to_answer@.contains(x));
                    assert(unhandled@.contains(x)) by {
                        lemma_proc_index_unique(start, pi0 as int);
                    }
                    let j = choose|j: int| 0 <= j < unhandled@.len() && unhandled@[j] == x;
                    assert(!self.table_contains(unhandled@[j]));
                }
            }
            assert forall|x: MessageId|
                cancelled@.contains(x) && #[trigger] self.table_contains(x)
                    implies self.processes@[pi0 as int].emitted_messages@.contains(x) by {
                assert(start.processes@[pi0 as int].emitted_messages@.contains(x)) by {
                    lemma_proc_index_unique(start, pi0 as int);
                }
            }
        }
        let mut k: usize = 0;
        while k < cancelled.len()
            invariant
                self.wf(),
                cancelled@ == start.proc_of(pid).emitted_messages@,
                0 <= pi0 < self.processes@.len(),
                self.processes@.len() == start.processes@.len(),
                self.processes@[pi0 as int].pid == pid,
                self.threads@ == after_unpark.threads@,
                self.interfaces@ == after_unpark.interfaces@,
                self.reserved_pids@ == start.reserved_pids@,
                self.pending_events@ == after_err.pending_events@,
                forall|j: int|
                    0 <= j < start.processes@.len() ==> (#[trigger] self.processes@[j]).pid
                        == start.processes@[j].pid && self.processes@[j].messages_queue@
                        == after_err.processes@[j].messages_queue@,
                forall|j: int|
                    0 <= j < self.threads@.len() ==> !((#[trigger] self.threads@[j]).pid == pid
                        && self.threads@[j].state is EmitPending),
                forall|j: int| 0 <= j < k ==> !self.table_contains(#[trigger] cancelled@[j]),
                forall|j: int|
                    0 <= j < unhandled@.len() ==> !self.table_contains(#[trigger] unhandled@[j]),
                forall|x: MessageId|
                    cancelled@.contains(x) && #[trigger] self.table_contains(x)
                        ==> self.processes@[pi0 as int].emitted_messages@.contains(x),
                forall|x: MessageId|
                    #[trigger] self.table_contains(x)
                        ==> (self.processes@[pi0 as int].emitted_messages@.contains(x)
                        <==> after_err.processes@[pi0 as int].emitted_messages@.contains(x)),
                self.processes@[pi0 as int].messages_to_answer@.len() == 0,
                forall|w: int| 0 <= w < woken@.len() ==> self.is_live_pid(#[trigger] woken@[w]),
            decreases cancelled@.len() - k,
        {
            let ghost pre = *self;
            let id = cancelled[k];
            proof {
                assert(cancelled@.contains(id)) by {
                    assert(cancelled@[k as int] == id);
                }
                lemma_proc_index_unique(pre, pi0 as int);
                if pre.table_contains(id) {
                    assert(pre.processes@[pi0 as int].emitted_messages@.contains(id));
                    let ek = choose|ek: int|
                        0 <= ek < pre.processes@[pi0 as int].emitted_messages@.len()
                            && pre.processes@[pi0 as int].emitted_messages@[ek] == id;
                    assert(pre.table_emitter(id) == pid);
                    if exists|i2: int| #[trigger] pre.thread_pending_id(i2, id) {
                        let i2 = choose|i2: int| #[trigger] pre.thread_pending_id(i2, id);
                        assert(pre.table_emitter(id) == pre.threads@[i2].pid);
                        assert(pre.threads@[i2].state is EmitPending);
                    }
                    if exists|ii2: int, k2: int| #[trigger] pre.other_pending_id(ii2, k2, id) {
                        let (ii2, k2) = choose|ii2: int, k2: int|
                            #[trigger] pre.other_pending_id(ii2, k2, id);
                        assert(pre.is_reserved_pid(pre.table_emitter(id)));
                        assert(!pre.reserved_pids@.contains(pre.processes@[pi0 as int].pid));
                    }
                }
            }
            let r = self.retire_entry(id);
            proof {
                match r {
                    Some(_) => {},
                    None => {
                        assert(!pre.table_contains(id));
                    },
                }
                assert forall|j: int| 0 <= j < k + 1 implies !self.table_contains(
                    #[trigger] cancelled@[j],
                ) by {
                    if j < k || r is None {
                        if self.table_contains(cancelled@[j]) {
                            assert(pre.table_contains(cancelled@[j]));
                        }
                    }
                }
                assert forall|j: int| 0 <= j < unhandled@.len() implies !self.table_contains(
                    #[trigger] unhandled@[j],
                ) by {
                    if self.table_contains(unhandled@[j]) {
                        assert(pre.table_contains(unhandled@[j]));
                    }
                }
                assert forall|w2: int|
                    0 <= w2 < woken@.len() implies self.is_live_pid(#[trigger] woken@[w2]) by {
                    assert(pre.is_live_pid(woken@[w2]));
                    let i2 = choose|i2: int|
                        0 <= i2 < pre.processes@.len() && pre.processes@[i2].pid == woken@[w2];
                    assert(self.processes@[i2].pid == woken@[w2]);
                }
                assert forall|x: MessageId|
                    cancelled@.contains(x) && #[trigger] self.table_contains(x)
                        implies self.processes@[pi0 as int].emitted_messages@.contains(x) by {
                    assert(pre.table_contains(x));
                    assert(x != id);
                    assert(pre.processes@[pi0 as int].emitted_messages@.contains(x));
                }
                assert forall|x: MessageId|
                    #[trigger] self.table_contains(x) implies (
                self.processes@[pi0 as int].emitted_messages@.contains(x)
                    <==> after_err.processes@[pi0 as int].emitted_messages@.contains(x)) by {
                    assert(pre.table_contains(x));
                    assert(x != id);
                }
                assert(self.processes@[pi0 as int].messages_to_answer@.len() == 0) by {
                    let ow = self.processes@[pi0 as int].messages_to_answer@;
                    if ow.len() > 0 {
                        let y = ow[0];
                        assert(ow.contains(y));
                        match r {
                            Some(_) => {
                                if y == id {
                                    assert(!self.processes@[pi0 as int].messages_to_answer@.contains(id));
                                } else {
                                    assert(pre.processes@[pi0 as int].messages_to_answer@.contains(y));
                                }
                            },
                            None => {
                                assert(pre.processes@[pi0 as int].messages_to_answer@.contains(y));
                            },
                        }
                    }
                }
            }
            k += 1;
        }

        // Free the interfaces this process had registered.
        let ghost after_cancel = *self;
        let mut unregistered: Vec<InterfaceHash> = Vec::new();
        let mut ii: usize = 0;
        while ii < self.interfaces.len()
            invariant
                self.wf(),
                0 <= pi0 < self.processes@.len(),
                self.processes@ == after_cancel.processes@,
                self.threads@ == after_cancel.threads@,
                self.reserved_pids@ == start.reserved_pids@,
                self.messages_to_answer@ == after_cancel.messages_to_answer@,
                self.pending_events@ == after_cancel.pending_events@,
                forall|j: int|
                    0 <= j < ii ==> !((#[trigger] self.interfaces@[j]).1 == InterfaceState::Process(
                        pid,
                    )),
            decreases self.interfaces@.len() - ii,
        {
            let is_mine = match &self.interfaces[ii].1 {
                InterfaceState::Process(p) => p.0 == pid.0,
                InterfaceState::Requested { .. } => false,
            };
            if is_mine {
                let ghost pre = *self;
                unregistered.push(self.interfaces[ii].0.clone());
                let _entry = self.interfaces.remove(ii);
                proof {
                    lemma_remove_registry_entry(pre, *self, ii as int);
                    assert forall|j: int|
                        0 <= j < ii implies !((#[trigger] self.interfaces@[j]).1
                        == InterfaceState::Process(pid)) by {
                        assert(self.interfaces@[j] == pre.interfaces@[j]);
                    }
                }
            } else {
                ii += 1;
            }
        }

        // Notify the handlers of the interfaces this process used.
        let ghost after_unreg = *self;
        let mut u: usize = 0;
        while u < used.len()
            invariant
                self.wf(),
                0 <= pi0 < self.processes@.len(),
                self.processes@.len() == start.processes@.len(),
                self.threads@ == after_cancel.threads@,
                self.interfaces@ == after_unreg.interfaces@,
                self.reserved_pids@ == start.reserved_pids@,
                self.messages_to_answer@ == after_cancel.messages_to_answer@,
                self.pending_events@ == after_cancel.pending_events@,
                forall|j: int|
                    0 <= j < start.processes@.len() ==> (#[trigger] self.processes@[j]).pid
                        == after_cancel.processes@[j].pid && self.processes@[j].emitted_messages@
                        == after_cancel.processes@[j].emitted_messages@
                        && self.processes@[j].messages_to_answer@
                        == after_cancel.processes@[j].messages_to_answer@,
                forall|j: int|
                    0 <= j < self.interfaces@.len() ==> !((#[trigger] self.interfaces@[j]).1
                        == InterfaceState::Process(pid)),
                forall|w: int| 0 <= w < woken@.len() ==> self.is_live_pid(#[trigger] woken@[w]),
            decreases used@.len() - u,
        {
            let ghost pre = *self;
            let target = match self.find_interface_index(&used[u]) {
                Some(ri) => match &self.interfaces[ri].1 {
                    InterfaceState::Process(hp) => Some(*hp),
                    InterfaceState::Requested { .. } => None,
                },
                None => None,
            };
            match target {
                Some(hp) => {
                    match self.find_process_index(hp) {
                        Some(hpj) => {
                            let mut hproc = self.processes.remove(hpj);
                            hproc.messages_queue.push(KernelMessage::ProcessDestroyed { pid });
                            self.processes.insert(hpj, hproc);
                            proof {
                                assert(self.processes@ =~= pre.processes@.update(
                                    hpj as int,
                                    self.processes@[hpj as int],
                                ));
                                assert forall|k2: int|
                                    0 <= k2
                                        < self.processes@[hpj as int].messages_queue@.len() implies wf_message(
                                    #[trigger] self.processes@[hpj as int].messages_queue@[k2],
                                ) by {
                                    if k2 < pre.processes@[hpj as int].messages_queue@.len() {
                                        assert(self.processes@[hpj as int].messages_queue@[k2]
                                            == pre.processes@[hpj as int].messages_queue@[k2]);
                                        assert(wf_message(
                                            pre.processes@[hpj as int].messages_queue@[k2],
                                        ));
                                    }
                                }
                                lemma_update_process_queue(pre, *self, hpj as int);
                                assert forall|w2: int|
                                    0 <= w2 < woken@.len() + 1 implies w2 < woken@.len()
                                    ==> self.is_live_pid(#[trigger] woken@[w2]) by {
                                    if w2 < woken@.len() {
                                        assert(pre.is_live_pid(woken@[w2]));
                                        let i2 = choose|i2: int|
                                            0 <= i2 < pre.processes@.len()
                                                && pre.processes@[i2].pid == woken@[w2];
                                        assert(self.processes@[i2].pid == woken@[w2]);
                                    }
                                }
                            }
                            woken.push(hp);
                            proof {
                                assert(self.is_live_pid(hp)) by {
                                    assert(self.processes@[hpj as int].pid == hp);
                                }
                            }
                        },
                        None => {},
                    }
                },
                None => {},
            }
            u += 1;
        }

        // Remove the threads of the process, then the process itself.
        let ghost after_notify = *self;
        let mut i: usize = 0;
        while i < self.threads.len()
            invariant
                self.wf(),
                0 <= pi0 < self.processes@.len(),
                self.processes@ == after_notify.processes@,
                self.interfaces@ == after_unreg.interfaces@,
                self.reserved_pids@ == start.reserved_pids@,
                self.messages_to_answer@ == after_cancel.messages_to_answer@,
                self.pending_events@ == after_cancel.pending_events@,
                forall|j: int| 0 <= j < i ==> (#[trigger] self.threads@[j]).pid != pid,
                forall|j: int|
                    0 <= j < self.threads@.len() ==> !((#[trigger] self.threads@[j]).pid == pid
                        && self.threads@[j].state is EmitPending),
            decreases self.threads@.len() - i,
        {
            if self.threads[i].pid.0 == pid.0 {
                let ghost pre = *self;
                let _t = self.threads.remove(i);
                proof {
                    lemma_remove_thread(pre, *self, i as int);
                    assert forall|j: int|
                        0 <= j < i implies (#[trigger] self.threads@[j]).pid != pid by {
                        assert(self.threads@[j] == pre.threads@[j]);
                    }
                    assert forall|j: int|
                        0 <= j < self.threads@.len() implies !((#[trigger] self.threads@[j]).pid
                        == pid && self.threads@[j].state is EmitPending) by {
                        let ghost oj: int = if j < i {
                            j
                        } else {
                            j + 1
                        };
                        assert(self.threads@[j] == pre.threads@[oj]);
                    }
                }
            } else {
                i += 1;
            }
        }

        let ghost after_threads = *self;
        proof {
            assert(self.is_live_pid(pid)) by {
                assert(self.processes@[pi0 as int].pid == pid);
            }
        }
        let pi = match self.find_process_index(pid) {
            Some(i2) => i2,
            None => {
                proof {
                    assert(false);
                }
                0
            },
        };
        proof {
            lemma_proc_index_unique(*self, pi as int);
        }
        let ghost pre_rm = *self;
        proof {
            assert(pi as int == pi0 as int) by {
                assert(pre_rm.processes@[pi as int].pid == pid);
                assert(pre_rm.processes@[pi0 as int].pid == pid) by {
                    assert(self.processes@[pi0 as int].pid == pid);
                }
                if pi as int != pi0 as int {
                    assert(pre_rm.processes@[pi as int].pid != pre_rm.processes@[pi0 as int].pid);
                }
            }
        }
        let _p = self.processes.remove(pi);
        proof {
            assert(pre_rm.processes@[pi as int].emitted_messages@.len() == 0) by {
                let em = pre_rm.processes@[pi as int].emitted_messages@;
                assert(em == after_cancel.processes@[pi0 as int].emitted_messages@);
                if em.len() > 0 {
                    let x = em[0];
                    assert(em.contains(x));
                    assert(after_cancel.table_contains(x)) by {
                        lemma_proc_index_unique(after_cancel, pi0 as int);
                    }
                    assert(after_err.processes@[pi0 as int].emitted_messages@.contains(x));
                    assert(after_err.table_contains(x)) by {
                        if !after_err.table_contains(x) {
                            let j2 = choose|j2: int|
                                0 <= j2 < after_cancel.messages_to_answer@.len()
                                    && after_cancel.messages_to_answer@[j2].0 == x;
                            assert(after_err.messages_to_answer@[j2].0 == x);
                        }
                    }
                    assert(start.processes@[pi0 as int].emitted_messages@.contains(x));
                    assert(cancelled@.contains(x)) by {
                        lemma_proc_index_unique(start, pi0 as int);
                    }
                    let j = choose|j: int| 0 <= j < cancelled@.len() && cancelled@[j] == x;
                    assert(!after_cancel.table_contains(cancelled@[j]));
                }
            }
            assert(pre_rm.processes@[pi as int].messages_to_answer@.len() == 0);
            assert forall|j: int|
                0 <= j < pre_rm.messages_to_answer@.len() implies (
            #[trigger] pre_rm.messages_to_answer@[j]).1 != pid by {
                if pre_rm.messages_to_answer@[j].1 == pid {
                    lemma_table_index_unique(pre_rm, j);
                    assert(pre_rm.proc_of(pid).emitted_messages@.contains(
                        pre_rm.messages_to_answer@[j].0,
                    ));
                    lemma_proc_index_unique(pre_rm, pi as int);
                }
            }
            lemma_remove_process(pre_rm, *self, pi as int);
        }

        // Report what was cleaned up.
        let ghost before_event = *self;
        self.pending_events.push(
            CoreRunOutcome::ProgramFinished {
                pid,
                unhandled_messages: unhandled,
                cancelled_messages: cancelled,
                unregistered_interfaces: unregistered,
            },
        );
        proof {
            lemma_wf_same_tables(before_event, *self);
            assert forall|j: int|
                0 <= j < self.threads@.len() implies (#[trigger] self.threads@[j]).pid != pid by {
                let ghost oj: int = if j < pi as int {
                    j
                } else {
                    j
                };
                assert(self.threads@[j] == after_threads.threads@[j]);
            }
            assert forall|k2: int|
                0 <= k2 < start.proc_of(pid).emitted_messages@.len() implies !self.table_contains(
                #[trigger] start.proc_of(pid).emitted_messages@[k2],
            ) by {
                assert(cancelled@[k2] == start.proc_of(pid).emitted_messages@[k2]);
                assert(!after_cancel.table_contains(cancelled@[k2]));
                if self.table_contains(cancelled@[k2]) {
                    let j = choose|j: int|
                        0 <= j < self.messages_to_answer@.len() && self.messages_to_answer@[j].0
                            == cancelled@[k2];
                    let ghost oj: int = if j < 0 {
                        j
                    } else {
                        j
                    };
                    assert(after_cancel.messages_to_answer@[j].0 == cancelled@[k2]);
                }
            }
            assert forall|k2: int|
                0 <= k2 < start.proc_of(pid).messages_to_answer@.len() implies !self.table_contains(
                #[trigger] start.proc_of(pid).messages_to_answer@[k2],
            ) by {
                assert(unhandled@[k2] == start.proc_of(pid).messages_to_answer@[k2]);
                assert(!after_cancel.table_contains(unhandled@[k2]));
                if self.table_contains(unhandled@[k2]) {
                    let j = choose|j: int|
                        0 <= j < self.messages_to_answer@.len() && self.messages_to_answer@[j].0
                            == unhandled@[k2];
                    assert(after_cancel.messages_to_answer@[j].0 == unhandled@[k2]);
                }
            }
            assert forall|j: int|
                0 <= j < self.messages_to_answer@.len() implies (
            #[trigger] self.messages_to_answer@[j]).1 != pid by {
                assert(pre_rm.messages_to_answer@[j].1 != pid);
            }
        }
        woken
    }
}

/// The pending-id bookkeeping survives any step that keeps the registry and
/// the table, keeps every parked emission in place, and only shrinks or
/// keeps the owed lists.
proof fn lemma_pending_wf_preserved(pre: Core, post: Core)
    requires
        pre.pending_wf(),
        post.interfaces@ == pre.interfaces@,
        post.messages_to_answer@ == pre.messages_to_answer@,
        post.reserved_pids@ == pre.reserved_pids@,
        forall|i: int|
            0 <= i < post.threads@.len() && is_emit_pending((#[trigger] post.threads@[i]).state)
                ==> 0 <= i < pre.threads@.len() && post.threads@[i] == pre.threads@[i],
        forall|j: int|
            0 <= j < post.processes@.len() ==> (0 <= j < pre.processes@.len() && (
            #[trigger] post.processes@[j]).messages_to_answer@
                == pre.processes@[j].messages_to_answer@)
                || post.processes@[j].messages_to_answer@.len() == 0,
    ensures
        post.pending_wf(),
{
    assert forall|id: MessageId| pre.table_contains(id) implies post.table_contains(id) by {
        let i = choose|i: int|
            0 <= i < pre.messages_to_answer@.len() && pre.messages_to_answer@[i].0 == id;
        assert(post.messages_to_answer@[i].0 == id);
    }
    assert forall|i: int, id: MessageId|
        #[trigger] post.thread_pending_id(i, id) implies post.table_contains(id)
        && post.table_emitter(id) == post.threads@[i].pid && (forall|j: int|
        0 <= j < post.processes@.len()
            ==> !(#[trigger] post.processes@[j]).messages_to_answer@.contains(id)) by {
        assert(is_emit_pending(post.threads@[i].state));
        assert(pre.thread_pending_id(i, id));
    }
    assert forall|i1: int, i2: int, id: MessageId|
        #[trigger] post.thread_pending_id(i1, id) && #[trigger] post.thread_pending_id(
            i2,
            id,
        ) implies i1 == i2 by {
        assert(pre.thread_pending_id(i1, id));
        assert(pre.thread_pending_id(i2, id));
    }
    assert forall|ii: int, k: int, id: MessageId|
        #[trigger] post.other_pending_id(ii, k, id) implies post.table_contains(id)
        && post.table_emitter(id) == requested_other(post.interfaces@[ii].1)[k].emitter_pid
        && post.is_reserved_pid(requested_other(post.interfaces@[ii].1)[k].emitter_pid) && (
    forall|j: int|
        0 <= j < post.processes@.len()
            ==> !(#[trigger] post.processes@[j]).messages_to_answer@.contains(id)) by {
        assert(pre.other_pending_id(ii, k, id));
    }
    assert forall|ii1: int, k1: int, ii2: int, k2: int, id: MessageId|
        #[trigger] post.other_pending_id(ii1, k1, id) && #[trigger] post.other_pending_id(
            ii2,
            k2,
            id,
        ) implies ii1 == ii2 && k1 == k2 by {
        assert(pre.other_pending_id(ii1, k1, id));
        assert(pre.other_pending_id(ii2, k2, id));
    }
    assert forall|i: int, ii: int, k: int, id: MessageId|
        #[trigger] post.thread_pending_id(i, id) implies !(#[trigger] post.other_pending_id(
        ii,
        k,
        id,
    )) by {
        assert(pre.thread_pending_id(i, id));
        if post.other_pending_id(ii, k, id) {
            assert(pre.other_pending_id(ii, k, id));
        }
    }
}

/// Pushing a fresh empty process and a fresh runnable main thread preserves
/// the core invariant.
proof fn lemma_push_process_thread(pre: Core, post: Core, pid: Pid, tid: ThreadId)
    requires
        pre.wf(),
        pid.0 >= 2 && !pre.is_live_pid(pid) && !pre.is_reserved_pid(pid),
        tid.0 >= 2 && !pre.is_live_tid(tid),
        post.processes@.len() == pre.processes@.len() + 1,
        post.processes@ == pre.processes@.push(post.processes@.last()),
        post.processes@.last().pid == pid,
        post.processes@.last().messages_queue@.len() == 0,
        post.processes@.last().registered_interfaces@.len() == 0,
        post.processes@.last().used_interfaces@.len() == 0,
        post.processes@.last().emitted_messages@.len() == 0,
        post.processes@.last().messages_to_answer@.len() == 0,
        post.threads@ == pre.threads@.push(post.threads@.last()),
        post.threads@.last().tid == tid && post.threads@.last().pid == pid
            && post.threads@.last().state is Runnable,
        post.interfaces@ == pre.interfaces@,
        post.reserved_pids@ == pre.reserved_pids@,
        post.messages_to_answer@ == pre.messages_to_answer@,
    ensures
        post.wf(),
{
    assert forall|p: Pid| pre.is_live_pid(p) implies post.is_live_pid(p) by {
        let i = choose|i: int| 0 <= i < pre.processes@.len() && pre.processes@[i].pid == p;
        assert(post.processes@[i].pid == p);
    }
    assert forall|t: ThreadId| pre.is_live_tid(t) implies post.is_live_tid(t) by {
        let i = choose|i: int| 0 <= i < pre.threads@.len() && pre.threads@[i].tid == t;
        assert(post.threads@[i].tid == t);
    }
    assert forall|t: ThreadId| pre.is_live_tid(t) implies post.thread_of(t) == pre.thread_of(t) by {
        lemma_thread_of_push(pre, post, t);
    }
    assert forall|p: Pid|
        pre.is_live_pid(p) && post.is_live_pid(p) implies post.proc_of(p) == pre.proc_of(p) by {
        lemma_proc_of_push(pre, post, p);
    }
    assert(post.pids_wf());
    assert(post.threads_wf());
    assert(post.interfaces_wf()) by {
        assert forall|i: int, k: int|
            0 <= i < post.interfaces@.len() && 0 <= k < requested_threads(
                post.interfaces@[i].1,
            ).len() implies {
            let t = #[trigger] requested_threads(post.interfaces@[i].1)[k];
            &&& post.is_live_tid(t)
            &&& is_emit_pending(post.thread_of(t).state)
            &&& emit_pending_interface(post.thread_of(t).state) == post.interfaces@[i].0@
        } by {
            let t = requested_threads(post.interfaces@[i].1)[k];
            assert(pre.is_live_tid(t));
            lemma_thread_of_push(pre, post, t);
        }
        assert forall|i: int|
            0 <= i < post.threads@.len() && is_emit_pending(
                (#[trigger] post.threads@[i]).state,
            ) implies {
            let h = emit_pending_interface(post.threads@[i].state);
            &&& post.registry_contains(h)
            &&& requested_threads(post.registry_state(h)).contains(post.threads@[i].tid)
        } by {
            if i < pre.threads@.len() {
                assert(pre.threads@[i] == post.threads@[i]);
            }
        }
    }
    assert(post.table_wf());
    assert(post.emitted_wf()) by {
        assert forall|j: int|
            0 <= j < post.messages_to_answer@.len() && post.is_live_pid(
                (#[trigger] post.messages_to_answer@[j]).1,
            ) implies post.proc_of(post.messages_to_answer@[j].1).emitted_messages@.contains(
            post.messages_to_answer@[j].0,
        ) by {
            let p = post.messages_to_answer@[j].1;
            assert(pre.is_live_pid(p) || pre.is_reserved_pid(p)) by {
                assert(pre.messages_to_answer@[j] == post.messages_to_answer@[j]);
            }
            if pre.is_live_pid(p) {
                lemma_proc_of_push(pre, post, p);
            } else {
                assert(!post.is_live_pid(p)) by {
                    if post.is_live_pid(p) {
                        let i = choose|i: int|
                            0 <= i < post.processes@.len() && post.processes@[i].pid == p;
                        if i < pre.processes@.len() {
                            assert(pre.is_live_pid(p));
                        }
                    }
                }
            }
        }
    }
    assert(post.owed_wf());
    assert(post.pending_wf()) by {
        assert forall|i: int|
            0 <= i < post.threads@.len() && is_emit_pending(
                (#[trigger] post.threads@[i]).state,
            ) implies 0 <= i < pre.threads@.len() && post.threads@[i] == pre.threads@[i] by {
            if i == pre.threads@.len() {
                assert(post.threads@[i].state is Runnable);
            }
        }
        lemma_pending_wf_preserved(pre, post);
    }
    assert(post.queues_wf());
}

impl Core {
    /// Index of the live process with this pid, if any.
    fn find_process_index(&self, pid: Pid) -> (r: Option<usize>)
        ensures
            r matches Some(i) ==> 0 <= i < self.processes@.len() && self.processes@[i as int].pid
                == pid,
            r is None ==> !self.is_live_pid(pid),
    {
        let mut i: usize = 0;
        while i < self.processes.len()
            invariant
                i <= self.processes@.len(),
                forall|j: int| 0 <= j < i ==> self.processes@[j].pid != pid,
            decreases self.processes@.len() - i,
        {
            if self.processes[i].pid.0 == pid.0 {
                return Some(i);
            }
            i += 1;
        }
        proof {
            if self.is_live_pid(pid) {
                let j = choose|j: int|
                    0 <= j < self.processes@.len() && self.processes@[j].pid == pid;
                assert(self.processes@[j].pid != pid);
            }
        }
        None
    }

    /// Index of the live thread with this tid, if any.
    fn find_thread_index(&self, tid: ThreadId) -> (r: Option<usize>)
        ensures
            r matches Some(i) ==> 0 <= i < self.threads@.len() && self.threads@[i as int].tid
                == tid,
            r is None ==> !self.is_live_tid(tid),
    {
        let mut i: usize = 0;
        while i < self.threads.len()
            invariant
                i <= self.threads@.len(),
                forall|j: int| 0 <= j < i ==> self.threads@[j].tid != tid,
            decreases self.threads@.len() - i,
        {
            if self.threads[i].tid.0 == tid.0 {
                return Some(i);
            }
            i += 1;
        }
        proof {
            if self.is_live_tid(tid) {
                let j = choose|j: int| 0 <= j < self.threads@.len() && self.threads@[j].tid == tid;
                assert(self.threads@[j].tid != tid);
            }
        }
        None
    }

    /// Index of the registry entry for this interface, if any.
    fn find_interface_index(&self, interface: &InterfaceHash) -> (r: Option<usize>)
        ensures
            r matches Some(i) ==> 0 <= i < self.interfaces@.len() && self.interfaces@[i as int].0@
                == interface@,
            r is None ==> !self.registry_contains(interface@),
    {
        let mut i: usize = 0;
        while i < self.interfaces.len()
            invariant
                i <= self.interfaces@.len(),
                forall|j: int| 0 <= j < i ==> self.interfaces@[j].0@ != interface@,
            decreases self.interfaces@.len() - i,
        {
            if self.interfaces[i].0.eq(interface) {
                return Some(i);
            }
            i += 1;
        }
        proof {
            if self.registry_contains(interface@) {
                let j = choose|j: int|
                    0 <= j < self.interfaces@.len() && self.interfaces@[j].0@ == interface@;
                assert(self.interfaces@[j].0@ != interface@);
            }
        }
        None
    }

    /// Index of the outstanding-response entry for this id, if any.
    fn find_table_index(&self, id: MessageId) -> (r: Option<usize>)
        ensures
            r matches Some(i) ==> 0 <= i < self.messages_to_answer@.len()
                && self.messages_to_answer@[i as int].0 == id,
            r is None ==> !self.table_contains(id),
    {
        let mut i: usize = 0;
        while i < self.messages_to_answer.len()
            invariant
                i <= self.messages_to_answer@.len(),
                forall|j: int| 0 <= j < i ==> self.messages_to_answer@[j].0 != id,
            decreases self.messages_to_answer@.len() - i,
        {
            if self.messages_to_answer[i].0.0 == id.0 {
                return Some(i);
            }
            i += 1;
        }
        proof {
            if self.table_contains(id) {
                let j = choose|j: int|
                    0 <= j < self.messages_to_answer@.len() && self.messages_to_answer@[j].0 == id;
                assert(self.messages_to_answer@[j].0 != id);
            }
        }
        None
    }
}

/// With unique pids, the index found for a pid is the one the specification
/// functions denote.
proof fn lemma_proc_index_unique(c: Core, i: int)
    requires
        c.pids_wf(),
        0 <= i < c.processes@.len(),
    ensures
        c.is_live_pid(c.processes@[i].pid),
        c.proc_index_of(c.processes@[i].pid) == i,
        c.proc_of(c.processes@[i].pid) == c.processes@[i],
{
    let pid = c.processes@[i].pid;
    assert(c.is_live_pid(pid));
    let j = c.proc_index_of(pid);
    assert(0 <= j < c.processes@.len() && c.processes@[j].pid == pid);
    if i != j {
        assert(c.processes@[i].pid != c.processes@[j].pid);
    }
}

/// With unique tids, the index found for a tid is the one the specification
/// functions denote.
proof fn lemma_thread_index_unique(c: Core, i: int)
    requires
        c.threads_wf(),
        0 <= i < c.threads@.len(),
    ensures
        c.is_live_tid(c.threads@[i].tid),
        c.thread_index_of(c.threads@[i].tid) == i,
        c.thread_of(c.threads@[i].tid) == c.threads@[i],
{
    let tid = c.threads@[i].tid;
    assert(c.is_live_tid(tid));
    let j = c.thread_index_of(tid);
    assert(0 <= j < c.threads@.len() && c.threads@[j].tid == tid);
    if i != j {
        assert(c.threads@[i].tid != c.threads@[j].tid);
    }
}

/// With unique registry keys, the index found for an interface is the one
/// the specification functions denote.
proof fn lemma_registry_index_unique(c: Core, i: int)
    requires
        c.interfaces_wf(),
        0 <= i < c.interfaces@.len(),
    ensures
        c.registry_contains(c.interfaces@[i].0@),
        c.registry_index_of(c.interfaces@[i].0@) == i,
        c.registry_state(c.interfaces@[i].0@) == c.interfaces@[i].1,
{
    let h = c.interfaces@[i].0@;
    assert(c.registry_contains(h));
    let j = c.registry_index_of(h);
    assert(0 <= j < c.interfaces@.len() && c.interfaces@[j].0@ == h);
    if i != j {
        assert(c.interfaces@[i].0@ != c.interfaces@[j].0@);
    }
}

/// With unique table keys, the index found for an id is the one the
/// specification functions denote.
proof fn lemma_table_index_unique(c: Core, i: int)
    requires
        c.table_wf(),
        0 <= i < c.messages_to_answer@.len(),
    ensures
        c.table_contains(c.messages_to_answer@[i].0),
        c.table_emitter(c.messages_to_answer@[i].0) == c.messages_to_answer@[i].1,
{
    let id = c.messages_to_answer@[i].0;
    assert(c.table_contains(id));
    let j = choose|j: int|
        0 <= j < c.messages_to_answer@.len() && c.messages_to_answer@[j].0 == id;
    if i != j {
        assert(c.messages_to_answer@[i].0 != c.messages_to_answer@[j].0);
    }
}

/// Replacing the state of one thread, neither from nor to a pending
/// emission, preserves the core invariant.
proof fn lemma_update_thread_state(pre: Core, post: Core, ti: int)
    requires
        pre.wf(),
        0 <= ti < pre.threads@.len(),
        post.threads@ == pre.threads@.update(ti, post.threads@[ti]),
        post.threads@[ti].tid == pre.threads@[ti].tid,
        post.threads@[ti].pid == pre.threads@[ti].pid,
        wf_thread_state(post.threads@[ti].state),
        !is_emit_pending(pre.threads@[ti].state),
        !is_emit_pending(post.threads@[ti].state),
        post.processes@ == pre.processes@,
        post.interfaces@ == pre.interfaces@,
        post.reserved_pids@ == pre.reserved_pids@,
        post.messages_to_answer@ == pre.messages_to_answer@,
    ensures
        post.wf(),
{
    assert(post.threads@.len() == pre.threads@.len());
    assert forall|p: Pid| pre.is_live_pid(p) implies post.is_live_pid(p) && post.proc_of(p)
        == pre.proc_of(p) by {}
    assert(post.pids_wf());
    assert(post.threads_wf());
    assert(post.table_wf());
    assert(post.emitted_wf());
    assert(post.owed_wf());
    assert(post.queues_wf());
    assert(post.interfaces_wf()) by {
        assert forall|i: int, k: int|
            0 <= i < post.interfaces@.len() && 0 <= k < requested_threads(
                post.interfaces@[i].1,
            ).len() implies {
            let t = #[trigger] requested_threads(post.interfaces@[i].1)[k];
            &&& post.is_live_tid(t)
            &&& is_emit_pending(post.thread_of(t).state)
            &&& emit_pending_interface(post.thread_of(t).state) == post.interfaces@[i].0@
        } by {
            let t = requested_threads(post.interfaces@[i].1)[k];
            assert(pre.is_live_tid(t));
            let j = pre.thread_index_of(t);
            lemma_thread_index_unique(pre, j);
            assert(is_emit_pending(pre.threads@[j].state));
            assert(j != ti);
            assert(post.threads@[j] == pre.threads@[j]);
            lemma_thread_index_unique(post, j);
        }
        assert forall|i: int|
            0 <= i < post.threads@.len() && is_emit_pending(
                (#[trigger] post.threads@[i]).state,
            ) implies {
            let h = emit_pending_interface(post.threads@[i].state);
            &&& post.registry_contains(h)
            &&& requested_threads(post.registry_state(h)).contains(post.threads@[i].tid)
        } by {
            assert(i != ti);
            assert(post.threads@[i] == pre.threads@[i]);
        }
    }
    assert(post.pending_wf()) by {
        assert forall|i: int|
            0 <= i < post.threads@.len() && is_emit_pending(
                (#[trigger] post.threads@[i]).state,
            ) implies 0 <= i < pre.threads@.len() && post.threads@[i] == pre.threads@[i] by {
            assert(i != ti);
        }
        lemma_pending_wf_preserved(pre, post);
    }
}

/// Replacing the message queue of one process with one whose messages are
/// all well-formed preserves the core invariant.
proof fn lemma_update_process_queue(pre: Core, post: Core, pi: int)
    requires
        pre.wf(),
        0 <= pi < pre.processes@.len(),
        post.processes@ == pre.processes@.update(pi, post.processes@[pi]),
        post.processes@[pi].pid == pre.processes@[pi].pid,
        post.processes@[pi].emitted_messages@ == pre.processes@[pi].emitted_messages@,
        post.processes@[pi].messages_to_answer@ == pre.processes@[pi].messages_to_answer@,
        forall|k: int|
            0 <= k < post.processes@[pi].messages_queue@.len() ==> wf_message(
                #[trigger] post.processes@[pi].messages_queue@[k],
            ),
        post.threads@ == pre.threads@,
        post.interfaces@ == pre.interfaces@,
        post.reserved_pids@ == pre.reserved_pids@,
        post.messages_to_answer@ == pre.messages_to_answer@,
    ensures
        post.wf(),
{
    assert(post.processes@.len() == pre.processes@.len());
    assert forall|p: Pid| pre.is_live_pid(p) implies post.is_live_pid(p) by {
        let i = choose|i: int| 0 <= i < pre.processes@.len() && pre.processes@[i].pid == p;
        assert(post.processes@[i].pid == p);
    }
    assert(post.pids_wf());
    assert(post.threads_wf()) by {
        assert forall|i: int|
            0 <= i < post.threads@.len() implies post.is_live_pid(
            (#[trigger] post.threads@[i]).pid,
        ) by {
            assert(pre.is_live_pid(pre.threads@[i].pid));
        }
    }
    assert(post.interfaces_wf()) by {
        assert forall|i: int, k: int|
            0 <= i < post.interfaces@.len() && 0 <= k < requested_threads(
                post.interfaces@[i].1,
            ).len() implies {
            let t = #[trigger] requested_threads(post.interfaces@[i].1)[k];
            &&& post.is_live_tid(t)
            &&& is_emit_pending(post.thread_of(t).state)
            &&& emit_pending_interface(post.thread_of(t).state) == post.interfaces@[i].0@
        } by {
            let t = requested_threads(post.interfaces@[i].1)[k];
            assert(pre.is_live_tid(t));
        }
    }
    assert(post.table_wf()) by {
        assert forall|i: int|
            0 <= i < post.messages_to_answer@.len() implies post.is_live_pid(
            (#[trigger] post.messages_to_answer@[i]).1,
        ) || post.is_reserved_pid(post.messages_to_answer@[i].1) by {
            assert(pre.is_live_pid(pre.messages_to_answer@[i].1) || pre.is_reserved_pid(
                pre.messages_to_answer@[i].1,
            ));
        }
    }
    assert(post.emitted_wf()) by {
        assert forall|j: int|
            0 <= j < post.messages_to_answer@.len() && post.is_live_pid(
                (#[trigger] post.messages_to_answer@[j]).1,
            ) implies post.proc_of(post.messages_to_answer@[j].1).emitted_messages@.contains(
            post.messages_to_answer@[j].0,
        ) by {
            let p = post.messages_to_answer@[j].1;
            assert(pre.is_live_pid(p) || pre.is_reserved_pid(p));
            if pre.is_live_pid(p) {
                let i = pre.proc_index_of(p);
                lemma_proc_index_unique(pre, i);
                lemma_proc_index_unique(post, i);
                assert(post.proc_of(p).emitted_messages@ == pre.proc_of(p).emitted_messages@);
            } else {
                assert(!pre.is_live_pid(p));
                assert forall|i: int|
                    0 <= i < post.processes@.len() implies post.processes@[i].pid != p by {
                    assert(pre.processes@[i].pid == post.processes@[i].pid);
                }
                assert(!post.is_live_pid(p));
            }
        }
    }
    assert(post.owed_wf());
    assert(post.pending_wf()) by {
        lemma_pending_wf_preserved(pre, post);
    }
    assert(post.queues_wf()) by {
        assert forall|i: int, k: int|
            0 <= i < post.processes@.len() && 0 <= k
                < post.processes@[i].messages_queue@.len() implies wf_message(
            #[trigger] post.processes@[i].messages_queue@[k],
        ) by {
            if i != pi {
                assert(post.processes@[i] == pre.processes@[i]);
                assert(wf_message(pre.processes@[i].messages_queue@[k]));
            }
        }
    }
}

/// `true` exactly when `v` holds an interface hash with the bytes of `h`.
fn hash_in_vec(v: &Vec<InterfaceHash>, h: &InterfaceHash) -> (r: bool)
    ensures
        r == exists|i: int| 0 <= i < v@.len() && (#[trigger] v@[i])@ == h@,
{
    let mut i: usize = 0;
    while i < v.len()
        invariant
            i <= v@.len(),
            forall|j: int| 0 <= j < i ==> (#[trigger] v@[j])@ != h@,
        decreases v@.len() - i,
    {
        if v[i].eq(h) {
            return true;
        }
        i += 1;
    }
    false
}

/// Copies a list of raw message ids.
fn clone_ids(v: &Vec<u64>) -> (r: Vec<u64>)
    ensures
        r@ == v@,
{
    let mut out: Vec<u64> = Vec::new();
    let mut i: usize = 0;
    while i < v.len()
        invariant
            i <= v@.len(),
            out@ == v@.subrange(0, i as int),
        decreases v@.len() - i,
    {
        out.push(v[i]);
        proof {
            assert(out@ =~= v@.subrange(0, i + 1 as int));
        }
        i += 1;
    }
    proof {
        assert(out@ =~= v@);
    }
    out
}

/// A fresh table entry keeps every earlier lookup and adds the new one.
proof fn lemma_table_push_lookup(pre: Core, post: Core, id: MessageId, pid: Pid)
    requires
        pre.table_wf(),
        !pre.table_contains(id),
        post.messages_to_answer@ == pre.messages_to_answer@.push((id, pid)),
    ensures
        forall|x: MessageId|
            #[trigger] pre.table_contains(x) ==> post.table_contains(x) && post.table_emitter(x)
                == pre.table_emitter(x),
        post.table_contains(id),
        post.table_emitter(id) == pid,
        forall|x: MessageId| #[trigger] post.table_contains(x) ==> x == id || pre.table_contains(x),
{
    let n = pre.messages_to_answer@.len() as int;
    assert forall|x: MessageId| #[trigger] pre.table_contains(x) implies post.table_contains(x)
        && post.table_emitter(x) == pre.table_emitter(x) by {
        let i = choose|i: int|
            0 <= i < pre.messages_to_answer@.len() && pre.messages_to_answer@[i].0 == x;
        assert(post.messages_to_answer@[i].0 == x);
        assert(post.table_contains(x));
        let j1 = choose|j: int|
            0 <= j < pre.messages_to_answer@.len() && pre.messages_to_answer@[j].0 == x;
        let j2 = choose|j: int|
            0 <= j < post.messages_to_answer@.len() && post.messages_to_answer@[j].0 == x;
        assert(post.messages_to_answer@[j2].0 == x);
        assert(j2 < n) by {
            if j2 == n {
                assert(pre.table_contains(id)) by {
                    assert(pre.messages_to_answer@[j1].0 == x);
                }
            }
        }
        if j1 != j2 {
            assert(pre.messages_to_answer@[j1].0 != pre.messages_to_answer@[j2].0);
        }
    }
    assert(post.messages_to_answer@[n].0 == id);
    assert(post.table_contains(id));
    let j = choose|j: int|
        0 <= j < post.messages_to_answer@.len() && post.messages_to_answer@[j].0 == id;
    assert(j == n) by {
        if j < n {
            assert(pre.messages_to_answer@[j].0 == id);
        }
    }
    assert forall|x: MessageId| #[trigger] post.table_contains(x) implies x == id
        || pre.table_contains(x) by {
        let i = choose|i: int|
            0 <= i < post.messages_to_answer@.len() && post.messages_to_answer@[i].0 == x;
        if i < n {
            assert(pre.messages_to_answer@[i].0 == x);
        }
    }
}

/// Entering a fresh id into the table and into its emitter's emitted list
/// preserves the core invariant.
proof fn lemma_register_emission(pre: Core, post: Core, pid: Pid, id: MessageId)
    requires
        pre.wf(),
        id.0 >= 2,
        !pre.table_contains(id),
        pre.is_live_pid(pid),
        post.messages_to_answer@ == pre.messages_to_answer@.push((id, pid)),
        post.processes@.len() == pre.processes@.len(),
        post.processes@ == pre.processes@.update(
            pre.proc_index_of(pid),
            post.processes@[pre.proc_index_of(pid)],
        ),
        post.processes@[pre.proc_index_of(pid)].pid == pid,
        post.processes@[pre.proc_index_of(pid)].emitted_messages@ == pre.processes@[pre.proc_index_of(
            pid,
        )].emitted_messages@.push(id),
        post.processes@[pre.proc_index_of(pid)].messages_to_answer@ == pre.processes@[pre.proc_index_of(
            pid,
        )].messages_to_answer@,
        post.processes@[pre.proc_index_of(pid)].messages_queue@ == pre.processes@[pre.proc_index_of(
            pid,
        )].messages_queue@,
        post.threads@ == pre.threads@,
        post.interfaces@ == pre.interfaces@,
        post.reserved_pids@ == pre.reserved_pids@,
    ensures
        post.wf(),
        post.table_contains(id),
        post.table_emitter(id) == pid,
{
    let pi = pre.proc_index_of(pid);
    lemma_proc_index_unique(pre, pi);
    lemma_table_push_lookup(pre, post, id, pid);
    assert forall|p: Pid| pre.is_live_pid(p) implies post.is_live_pid(p) by {
        let i = choose|i: int| 0 <= i < pre.processes@.len() && pre.processes@[i].pid == p;
        assert(post.processes@[i].pid == p);
    }
    assert(post.pids_wf());
    assert(post.threads_wf()) by {
        assert forall|i: int|
            0 <= i < post.threads@.len() implies post.is_live_pid(
            (#[trigger] post.threads@[i]).pid,
        ) by {
            assert(pre.is_live_pid(pre.threads@[i].pid));
        }
    }
    assert(post.interfaces_wf()) by {
        assert forall|i: int, k: int|
            0 <= i < post.interfaces@.len() && 0 <= k < requested_threads(
                post.interfaces@[i].1,
            ).len() implies {
            let t = #[trigger] requested_threads(post.interfaces@[i].1)[k];
            &&& post.is_live_tid(t)
            &&& is_emit_pending(post.thread_of(t).state)
            &&& emit_pending_interface(post.thread_of(t).state) == post.interfaces@[i].0@
        } by {
            let t = requested_threads(post.interfaces@[i].1)[k];
            assert(pre.is_live_tid(t));
        }
    }
    assert(post.table_wf()) by {
        assert forall|i: int, j: int|
            0 <= i < j < post.messages_to_answer@.len() implies post.messages_to_answer@[i].0
                != post.messages_to_answer@[j].0 by {
            if j < pre.messages_to_answer@.len() {
            } else {
                assert(post.messages_to_answer@[j].0 == id);
                assert(pre.messages_to_answer@[i].0 == post.messages_to_answer@[i].0);
                if post.messages_to_answer@[i].0 == id {
                    assert(pre.table_contains(id));
                }
            }
        }
        assert forall|i: int|
            0 <= i < post.messages_to_answer@.len() implies post.is_live_pid(
            (#[trigger] post.messages_to_answer@[i]).1,
        ) || post.is_reserved_pid(post.messages_to_answer@[i].1) by {
            if i < pre.messages_to_answer@.len() {
                assert(pre.is_live_pid(pre.messages_to_answer@[i].1) || pre.is_reserved_pid(
                    pre.messages_to_answer@[i].1,
                ));
            } else {
                assert(post.messages_to_answer@[i].1 == pid);
            }
        }
    }
    assert(post.emitted_wf()) by {
        assert forall|i: int, k: int|
            0 <= i < post.processes@.len() && 0 <= k
                < post.processes@[i].emitted_messages@.len() implies post.table_contains(
            #[trigger] post.processes@[i].emitted_messages@[k],
        ) && post.table_emitter(post.processes@[i].emitted_messages@[k])
            == post.processes@[i].pid by {
            if i == pi && k == pre.processes@[pi].emitted_messages@.len() {
            } else {
                assert(post.processes@[i].emitted_messages@[k]
                    == pre.processes@[i].emitted_messages@[k]);
                assert(pre.table_contains(pre.processes@[i].emitted_messages@[k]));
            }
        }
        assert forall|i: int, k1: int, k2: int|
            0 <= i < post.processes@.len() && 0 <= k1 < k2
                < post.processes@[i].emitted_messages@.len() implies #[trigger] post.processes@[i].emitted_messages@[k1]
            != #[trigger] post.processes@[i].emitted_messages@[k2] by {
            if i == pi && k2 == pre.processes@[pi].emitted_messages@.len() {
                assert(post.processes@[i].emitted_messages@[k2] == id);
                assert(pre.table_contains(pre.processes@[i].emitted_messages@[k1]));
            }
        }
        assert forall|j: int|
            0 <= j < post.messages_to_answer@.len() && post.is_live_pid(
                (#[trigger] post.messages_to_answer@[j]).1,
            ) implies post.proc_of(post.messages_to_answer@[j].1).emitted_messages@.contains(
            post.messages_to_answer@[j].0,
        ) by {
            let p = post.messages_to_answer@[j].1;
            let x = post.messages_to_answer@[j].0;
            assert(post.is_live_pid(p) ==> pre.is_live_pid(p)) by {
                if post.is_live_pid(p) {
                    let i = choose|i: int|
                        0 <= i < post.processes@.len() && post.processes@[i].pid == p;
                    assert(pre.processes@[i].pid == p);
                }
            }
            let i2 = pre.proc_index_of(p);
            lemma_proc_index_unique(pre, i2);
            lemma_proc_index_unique(post, i2);
            if j < pre.messages_to_answer@.len() {
                assert(pre.proc_of(p).emitted_messages@.contains(x));
                let k = choose|k: int|
                    0 <= k < pre.proc_of(p).emitted_messages@.len() && pre.proc_of(
                        p,
                    ).emitted_messages@[k] == x;
                assert(post.proc_of(p).emitted_messages@[k] == x);
            } else {
                assert(x == id && p == pid);
                assert(post.proc_of(pid).emitted_messages@.last() == id);
            }
        }
    }
    assert(post.owed_wf()) by {
        assert forall|i: int, k: int|
            0 <= i < post.processes@.len() && 0 <= k
                < post.processes@[i].messages_to_answer@.len() implies post.table_contains(
            #[trigger] post.processes@[i].messages_to_answer@[k],
        ) by {
            assert(post.processes@[i].messages_to_answer@[k]
                == pre.processes@[i].messages_to_answer@[k]);
            assert(pre.table_contains(pre.processes@[i].messages_to_answer@[k]));
        }
    }
    assert(post.pending_wf()) by {
        assert forall|i: int, id2: MessageId|
            #[trigger] post.thread_pending_id(i, id2) implies post.table_contains(id2)
            && post.table_emitter(id2) == post.threads@[i].pid && (forall|j: int|
            0 <= j < post.processes@.len()
                ==> !(#[trigger] post.processes@[j]).messages_to_answer@.contains(id2)) by {
            assert(pre.thread_pending_id(i, id2));
            assert(pre.table_contains(id2));
            assert forall|j: int|
                0 <= j < post.processes@.len() implies !(
            #[trigger] post.processes@[j]).messages_to_answer@.contains(id2) by {
                assert(!pre.processes@[j].messages_to_answer@.contains(id2));
                assert(post.processes@[j].messages_to_answer@
                    == pre.processes@[j].messages_to_answer@);
            }
        }
        assert forall|i1: int, i2: int, id2: MessageId|
            #[trigger] post.thread_pending_id(i1, id2) && #[trigger] post.thread_pending_id(
                i2,
                id2,
            ) implies i1 == i2 by {
            assert(pre.thread_pending_id(i1, id2));
            assert(pre.thread_pending_id(i2, id2));
        }
        assert forall|ii: int, k: int, id2: MessageId|
            #[trigger] post.other_pending_id(ii, k, id2) implies post.table_contains(id2)
            && post.table_emitter(id2) == requested_other(post.interfaces@[ii].1)[k].emitter_pid
            && post.is_reserved_pid(requested_other(post.interfaces@[ii].1)[k].emitter_pid) && (
        forall|j: int|
            0 <= j < post.processes@.len()
                ==> !(#[trigger] post.processes@[j]).messages_to_answer@.contains(id2)) by {
            assert(pre.other_pending_id(ii, k, id2));
            assert(pre.table_contains(id2));
            assert forall|j: int|
                0 <= j < post.processes@.len() implies !(
            #[trigger] post.processes@[j]).messages_to_answer@.contains(id2) by {
                assert(!pre.processes@[j].messages_to_answer@.contains(id2));
                assert(post.processes@[j].messages_to_answer@
                    == pre.processes@[j].messages_to_answer@);
            }
        }
        assert forall|ii1: int, k1: int, ii2: int, k2: int, id2: MessageId|
            #[trigger] post.other_pending_id(ii1, k1, id2) && #[trigger] post.other_pending_id(
                ii2,
                k2,
                id2,
            ) implies ii1 == ii2 && k1 == k2 by {
            assert(pre.other_pending_id(ii1, k1, id2));
            assert(pre.other_pending_id(ii2, k2, id2));
        }
        assert forall|i: int, ii: int, k: int, id2: MessageId|
            #[trigger] post.thread_pending_id(i, id2) implies !(#[trigger] post.other_pending_id(
            ii,
            k,
            id2,
        )) by {
            assert(pre.thread_pending_id(i, id2));
            if post.other_pending_id(ii, k, id2) {
                assert(pre.other_pending_id(ii, k, id2));
            }
        }
    }
    assert(post.queues_wf()) by {
        assert forall|i: int, k: int|
            0 <= i < post.processes@.len() && 0 <= k
                < post.processes@[i].messages_queue@.len() implies wf_message(
            #[trigger] post.processes@[i].messages_queue@[k],
        ) by {
            assert(post.processes@[i].messages_queue@ == pre.processes@[i].messages_queue@);
            assert(wf_message(pre.processes@[i].messages_queue@[k]));
        }
    }
}

impl Core {
    /// Draws a message id that is neither a sentinel nor in use, without
    /// touching any table.
    fn alloc_message_id(&mut self) -> (r: MessageId)
        requires
            old(self).messages_to_answer@.len() < MAX_ID_TABLE,
        ensures
            r.0 >= 2,
            !old(self).table_contains(r),
            final(self).processes@ == old(self).processes@,
            final(self).threads@ == old(self).threads@,
            final(self).interfaces@ == old(self).interfaces@,
            final(self).reserved_pids@ == old(self).reserved_pids@,
            final(self).messages_to_answer@ == old(self).messages_to_answer@,
            final(self).pending_events@ == old(self).pending_events@,
    {
        let mut used: Vec<u64> = Vec::new();
        let mut i: usize = 0;
        while i < self.messages_to_answer.len()
            invariant
                i <= self.messages_to_answer@.len(),
                used@.len() == i,
                forall|j: int| 0 <= j < i ==> used@[j] == self.messages_to_answer@[j].0.0,
            decreases self.messages_to_answer@.len() - i,
        {
            used.push(self.messages_to_answer[i].0.0);
            i += 1;
        }
        let raw = fresh_id(&mut self.id_pool, &used);
        proof {
            if self.table_contains(MessageId(raw)) {
                let j = choose|j: int|
                    0 <= j < self.messages_to_answer@.len() && self.messages_to_answer@[j].0
                        == MessageId(raw);
                assert(used@[j] == raw);
            }
        }
        MessageId(raw)
    }
}

/// An id that is not in the table is referenced by no owed list, no parked
/// emission and no queued handlerless message.
proof fn lemma_fresh_not_referenced(c: Core, id: MessageId)
    requires
        c.wf(),
        !c.table_contains(id),
    ensures
        forall|j: int|
            0 <= j < c.processes@.len() ==> !(#[trigger] c.processes@[j]).messages_to_answer@.contains(
                id,
            ),
        forall|i: int| !(#[trigger] c.thread_pending_id(i, id)),
        forall|ii: int, k: int| !(#[trigger] c.other_pending_id(ii, k, id)),
{
    assert forall|j: int|
        0 <= j < c.processes@.len() implies !(
    #[trigger] c.processes@[j]).messages_to_answer@.contains(id) by {
        if c.processes@[j].messages_to_answer@.contains(id) {
            let k = choose|k: int|
                0 <= k < c.processes@[j].messages_to_answer@.len()
                    && c.processes@[j].messages_to_answer@[k] == id;
            assert(c.table_contains(c.processes@[j].messages_to_answer@[k]));
        }
    }
    assert forall|i: int| !(#[trigger] c.thread_pending_id(i, id)) by {
        if c.thread_pending_id(i, id) {
            assert(c.table_contains(id));
        }
    }
    assert forall|ii: int, k: int| !(#[trigger] c.other_pending_id(ii, k, id)) by {
        if c.other_pending_id(ii, k, id) {
            assert(c.table_contains(id));
        }
    }
}

/// Appending a well-formed message to a process queue, while recording the
/// answer it owes, preserves the core invariant.
proof fn lemma_enqueue_with_owed(pre: Core, post: Core, pi: int, id: MessageId)
    requires
        pre.wf(),
        0 <= pi < pre.processes@.len(),
        pre.table_contains(id),
        forall|j: int|
            0 <= j < pre.processes@.len() ==> !(#[trigger] pre.processes@[j]).messages_to_answer@.contains(
                id,
            ),
        forall|i: int| !(#[trigger] pre.thread_pending_id(i, id)),
        forall|ii: int, k: int| !(#[trigger] pre.other_pending_id(ii, k, id)),
        post.processes@.len() == pre.processes@.len(),
        post.processes@ == pre.processes@.update(pi, post.processes@[pi]),
        post.processes@[pi].pid == pre.processes@[pi].pid,
        post.processes@[pi].emitted_messages@ == pre.processes@[pi].emitted_messages@,
        post.processes@[pi].messages_to_answer@ == pre.processes@[pi].messages_to_answer@.push(id),
        forall|k: int|
            0 <= k < post.processes@[pi].messages_queue@.len() ==> wf_message(
                #[trigger] post.processes@[pi].messages_queue@[k],
            ),
        post.threads@ == pre.threads@,
        post.interfaces@ == pre.interfaces@,
        post.reserved_pids@ == pre.reserved_pids@,
        post.messages_to_answer@ == pre.messages_to_answer@,
    ensures
        post.wf(),
{
    assert forall|p: Pid| pre.is_live_pid(p) implies post.is_live_pid(p) by {
        let i = choose|i: int| 0 <= i < pre.processes@.len() && pre.processes@[i].pid == p;
        assert(post.processes@[i].pid == p);
    }
    assert(post.pids_wf());
    assert(post.threads_wf()) by {
        assert forall|i: int|
            0 <= i < post.threads@.len() implies post.is_live_pid(
            (#[trigger] post.threads@[i]).pid,
        ) by {
            assert(pre.is_live_pid(pre.threads@[i].pid));
        }
    }
    assert(post.interfaces_wf()) by {
        assert forall|i: int, k: int|
            0 <= i < post.interfaces@.len() && 0 <= k < requested_threads(
                post.interfaces@[i].1,
            ).len() implies {
            let t = #[trigger] requested_threads(post.interfaces@[i].1)[k];
            &&& post.is_live_tid(t)
            &&& is_emit_pending(post.thread_of(t).state)
            &&& emit_pending_interface(post.thread_of(t).state) == post.interfaces@[i].0@
        } by {
            let t = requested_threads(post.interfaces@[i].1)[k];
            assert(pre.is_live_tid(t));
        }
    }
    assert(post.table_wf()) by {
        assert forall|i: int|
            0 <= i < post.messages_to_answer@.len() implies post.is_live_pid(
            (#[trigger] post.messages_to_answer@[i]).1,
        ) || post.is_reserved_pid(post.messages_to_answer@[i].1) by {
            assert(pre.is_live_pid(pre.messages_to_answer@[i].1) || pre.is_reserved_pid(
                pre.messages_to_answer@[i].1,
            ));
        }
    }
    assert(post.emitted_wf()) by {
        assert forall|j: int|
            0 <= j < post.messages_to_answer@.len() && post.is_live_pid(
                (#[trigger] post.messages_to_answer@[j]).1,
            ) implies post.proc_of(post.messages_to_answer@[j].1).emitted_messages@.contains(
            post.messages_to_answer@[j].0,
        ) by {
            let p = post.messages_to_answer@[j].1;
            assert(post.is_live_pid(p) ==> pre.is_live_pid(p)) by {
                if post.is_live_pid(p) {
                    let i = choose|i: int|
                        0 <= i < post.processes@.len() && post.processes@[i].pid == p;
                    assert(pre.processes@[i].pid == p);
                }
            }
            let i2 = pre.proc_index_of(p);
            lemma_proc_index_unique(pre, i2);
            lemma_proc_index_unique(post, i2);
            assert(post.proc_of(p).emitted_messages@ == pre.proc_of(p).emitted_messages@);
        }
    }
    assert(post.owed_wf()) by {
        assert forall|i: int, k: int|
            0 <= i < post.processes@.len() && 0 <= k
                < post.processes@[i].messages_to_answer@.len() implies post.table_contains(
            #[trigger] post.processes@[i].messages_to_answer@[k],
        ) by {
            if i == pi && k == pre.processes@[pi].messages_to_answer@.len() {
                assert(post.processes@[i].messages_to_answer@[k] == id);
            } else {
                assert(post.processes@[i].messages_to_answer@[k]
                    == pre.processes@[i].messages_to_answer@[k]);
                assert(pre.table_contains(pre.processes@[i].messages_to_answer@[k]));
            }
        }
        assert forall|i: int, k1: int, k2: int|
            0 <= i < post.processes@.len() && 0 <= k1 < k2
                < post.processes@[i].messages_to_answer@.len() implies #[trigger] post.processes@[i].messages_to_answer@[k1]
            != #[trigger] post.processes@[i].messages_to_answer@[k2] by {
            if i == pi && k2 == pre.processes@[pi].messages_to_answer@.len() {
                assert(post.processes@[i].messages_to_answer@[k2] == id);
                assert(pre.processes@[pi].messages_to_answer@.contains(
                    pre.processes@[pi].messages_to_answer@[k1],
                ));
            }
        }
        assert forall|i1: int, i2: int, k1: int, k2: int|
            0 <= i1 < post.processes@.len() && 0 <= i2 < post.processes@.len() && i1 != i2 && 0
                <= k1 < post.processes@[i1].messages_to_answer@.len() && 0 <= k2
                < post.processes@[i2].messages_to_answer@.len()
                implies #[trigger] post.processes@[i1].messages_to_answer@[k1]
            != #[trigger] post.processes@[i2].messages_to_answer@[k2] by {
            if i1 == pi && k1 == pre.processes@[pi].messages_to_answer@.len() {
                assert(post.processes@[i1].messages_to_answer@[k1] == id);
                assert(pre.processes@[i2].messages_to_answer@.contains(
                    pre.processes@[i2].messages_to_answer@[k2],
                ));
            } else if i2 == pi && k2 == pre.processes@[pi].messages_to_answer@.len() {
                assert(post.processes@[i2].messages_to_answer@[k2] == id);
                assert(pre.processes@[i1].messages_to_answer@.contains(
                    pre.processes@[i1].messages_to_answer@[k1],
                ));
            }
        }
    }
    assert(post.pending_wf()) by {
        assert forall|i: int, id2: MessageId|
            #[trigger] post.thread_pending_id(i, id2) implies post.table_contains(id2)
            && post.table_emitter(id2) == post.threads@[i].pid && (forall|j: int|
            0 <= j < post.processes@.len()
                ==> !(#[trigger] post.processes@[j]).messages_to_answer@.contains(id2)) by {
            assert(pre.thread_pending_id(i, id2));
            assert(id2 != id);
            assert forall|j: int|
                0 <= j < post.processes@.len() implies !(
            #[trigger] post.processes@[j]).messages_to_answer@.contains(id2) by {
                assert(!pre.processes@[j].messages_to_answer@.contains(id2));
                if post.processes@[j].messages_to_answer@.contains(id2) {
                    let k = choose|k: int|
                        0 <= k < post.processes@[j].messages_to_answer@.len()
                            && post.processes@[j].messages_to_answer@[k] == id2;
                    if j == pi && k == pre.processes@[pi].messages_to_answer@.len() {
                    } else {
                        assert(pre.processes@[j].messages_to_answer@[k] == id2);
                        assert(pre.processes@[j].messages_to_answer@.contains(id2));
                    }
                }
            }
        }
        assert forall|i1: int, i2: int, id2: MessageId|
            #[trigger] post.thread_pending_id(i1, id2) && #[trigger] post.thread_pending_id(
                i2,
                id2,
            ) implies i1 == i2 by {
            assert(pre.thread_pending_id(i1, id2));
            assert(pre.thread_pending_id(i2, id2));
        }
        assert forall|ii: int, k: int, id2: MessageId|
            #[trigger] post.other_pending_id(ii, k, id2) implies post.table_contains(id2)
            && post.table_emitter(id2) == requested_other(post.interfaces@[ii].1)[k].emitter_pid
            && post.is_reserved_pid(requested_other(post.interfaces@[ii].1)[k].emitter_pid) && (
        forall|j: int|
            0 <= j < post.processes@.len()
                ==> !(#[trigger] post.processes@[j]).messages_to_answer@.contains(id2)) by {
            assert(pre.other_pending_id(ii, k, id2));
            assert(id2 != id);
            assert forall|j: int|
                0 <= j < post.processes@.len() implies !(
            #[trigger] post.processes@[j]).messages_to_answer@.contains(id2) by {
                assert(!pre.processes@[j].messages_to_answer@.contains(id2));
                if post.processes@[j].messages_to_answer@.contains(id2) {
                    let k3 = choose|k3: int|
                        0 <= k3 < post.processes@[j].messages_to_answer@.len()
                            && post.processes@[j].messages_to_answer@[k3] == id2;
                    if j == pi && k3 == pre.processes@[pi].messages_to_answer@.len() {
                    } else {
                        assert(pre.processes@[j].messages_to_answer@[k3] == id2);
                        assert(pre.processes@[j].messages_to_answer@.contains(id2));
                    }
                }
            }
        }
        assert forall|ii1: int, k1: int, ii2: int, k2: int, id2: MessageId|
            #[trigger] post.other_pending_id(ii1, k1, id2) && #[trigger] post.other_pending_id(
                ii2,
                k2,
                id2,
            ) implies ii1 == ii2 && k1 == k2 by {
            assert(pre.other_pending_id(ii1, k1, id2));
            assert(pre.other_pending_id(ii2, k2, id2));
        }
        assert forall|i: int, ii: int, k: int, id2: MessageId|
            #[trigger] post.thread_pending_id(i, id2) implies !(#[trigger] post.other_pending_id(
            ii,
            k,
            id2,
        )) by {
            assert(pre.thread_pending_id(i, id2));
            if post.other_pending_id(ii, k, id2) {
                assert(pre.other_pending_id(ii, k, id2));
            }
        }
    }
    assert(post.queues_wf()) by {
        assert forall|i: int, k: int|
            0 <= i < post.processes@.len() && 0 <= k
                < post.processes@[i].messages_queue@.len() implies wf_message(
            #[trigger] post.processes@[i].messages_queue@[k],
        ) by {
            if i != pi {
                assert(post.processes@[i].messages_queue@ == pre.processes@[i].messages_queue@);
                assert(wf_message(pre.processes@[i].messages_queue@[k]));
            }
        }
    }
}

/// After replacing one registry entry under the same key, every lookup is
/// as before except at that key.
proof fn lemma_registry_lookup_update(pre: Core, post: Core, ri: int)
    requires
        forall|i: int, j: int|
            0 <= i < j < pre.interfaces@.len() ==> pre.interfaces@[i].0@ != pre.interfaces@[j].0@,
        0 <= ri < pre.interfaces@.len(),
        post.interfaces@.len() == pre.interfaces@.len(),
        post.interfaces@ == pre.interfaces@.update(ri, post.interfaces@[ri]),
        post.interfaces@[ri].0@ == pre.interfaces@[ri].0@,
    ensures
        forall|h: Seq<u8>|
            #[trigger] pre.registry_contains(h) <==> #[trigger] post.registry_contains(h),
        forall|h: Seq<u8>|
            pre.registry_contains(h) && h != pre.interfaces@[ri].0@
                ==> #[trigger] post.registry_state(h) == pre.registry_state(h)
                && post.registry_index_of(h) == pre.registry_index_of(h),
        post.registry_contains(pre.interfaces@[ri].0@),
        post.registry_index_of(pre.interfaces@[ri].0@) == ri,
        post.registry_state(pre.interfaces@[ri].0@) == post.interfaces@[ri].1,
{
    assert forall|h: Seq<u8>|
        #[trigger] pre.registry_contains(h) <==> #[trigger] post.registry_contains(h) by {
        if pre.registry_contains(h) {
            let i = choose|i: int| 0 <= i < pre.interfaces@.len() && pre.interfaces@[i].0@ == h;
            assert(post.interfaces@[i].0@ == h);
        }
        if post.registry_contains(h) {
            let i = choose|i: int| 0 <= i < post.interfaces@.len() && post.interfaces@[i].0@ == h;
            assert(pre.interfaces@[i].0@ == h);
        }
    }
    assert forall|h: Seq<u8>|
        pre.registry_contains(h) && h != pre.interfaces@[ri].0@
        implies #[trigger] post.registry_state(h) == pre.registry_state(h)
        && post.registry_index_of(h) == pre.registry_index_of(h) by {
        let i1 = pre.registry_index_of(h);
        let i2 = post.registry_index_of(h);
        assert(0 <= i1 < pre.interfaces@.len() && pre.interfaces@[i1].0@ == h);
        assert(post.registry_contains(h));
        assert(0 <= i2 < post.interfaces@.len() && post.interfaces@[i2].0@ == h);
        assert(i2 != ri);
        assert(pre.interfaces@[i2].0@ == h);
        if i1 != i2 {
            assert(pre.interfaces@[i1].0@ != pre.interfaces@[i2].0@);
        }
    }
    let key = pre.interfaces@[ri].0@;
    assert(post.interfaces@[ri].0@ == key);
    assert(post.registry_contains(key));
    let j = post.registry_index_of(key);
    assert(0 <= j < post.interfaces@.len() && post.interfaces@[j].0@ == key);
    if j != ri {
        assert(pre.interfaces@[j].0@ == key);
        assert(pre.interfaces@[j].0@ != pre.interfaces@[ri].0@);
    }
}

/// After pushing a registry entry under a fresh key, every lookup is as
/// before, and the new key maps to the new entry.
proof fn lemma_registry_lookup_push(pre: Core, post: Core)
    requires
        forall|i: int, j: int|
            0 <= i < j < pre.interfaces@.len() ==> pre.interfaces@[i].0@ != pre.interfaces@[j].0@,
        !pre.registry_contains(post.interfaces@.last().0@),
        post.interfaces@.len() == pre.interfaces@.len() + 1,
        post.interfaces@ == pre.interfaces@.push(post.interfaces@.last()),
    ensures
        forall|h: Seq<u8>|
            #[trigger] pre.registry_contains(h) ==> post.registry_contains(h)
                && #[trigger] post.registry_state(h) == pre.registry_state(h)
                && post.registry_index_of(h) == pre.registry_index_of(h),
        forall|h: Seq<u8>|
            #[trigger] post.registry_contains(h) ==> pre.registry_contains(h) || h
                == post.interfaces@.last().0@,
        post.registry_contains(post.interfaces@.last().0@),
        post.registry_index_of(post.interfaces@.last().0@) == pre.interfaces@.len(),
        post.registry_state(post.interfaces@.last().0@) == post.interfaces@.last().1,
{
    let n = pre.interfaces@.len() as int;
    let key = post.interfaces@.last().0@;
    assert forall|h: Seq<u8>|
        #[trigger] pre.registry_contains(h) implies post.registry_contains(h)
        && #[trigger] post.registry_state(h) == pre.registry_state(h) && post.registry_index_of(h)
        == pre.registry_index_of(h) by {
        let i1 = pre.registry_index_of(h);
        assert(0 <= i1 < pre.interfaces@.len() && pre.interfaces@[i1].0@ == h);
        assert(post.interfaces@[i1].0@ == h);
        assert(post.registry_contains(h));
        let i2 = post.registry_index_of(h);
        assert(0 <= i2 < post.interfaces@.len() && post.interfaces@[i2].0@ == h);
        assert(i2 != n) by {
            if i2 == n {
                assert(pre.registry_contains(key)) by {
                    assert(pre.interfaces@[i1].0@ == key);
                }
            }
        }
        assert(pre.interfaces@[i2].0@ == h);
        if i1 != i2 {
            assert(pre.interfaces@[i1].0@ != pre.interfaces@[i2].0@);
        }
    }
    assert forall|h: Seq<u8>|
        #[trigger] post.registry_contains(h) implies pre.registry_contains(h) || h == key by {
        let i = choose|i: int| 0 <= i < post.interfaces@.len() && post.interfaces@[i].0@ == h;
        if i < n {
            assert(pre.interfaces@[i].0@ == h);
        }
    }
    assert(post.interfaces@[n].0@ == key);
    assert(post.registry_contains(key));
    let j = post.registry_index_of(key);
    assert(0 <= j < post.interfaces@.len() && post.interfaces@[j].0@ == key);
    if j != n {
        assert(pre.interfaces@[j].0@ == key);
        assert(pre.registry_contains(key));
    }
}

/// Parking a runnable thread on an unregistered interface, listing it in the
/// corresponding registry entry, preserves the core invariant.
proof fn lemma_park_emit(pre: Core, post: Core, ti: int, ri: int, is_new: bool)
    requires
        pre.wf(),
        0 <= ti < pre.threads@.len(),
        pre.threads@[ti].state is Runnable,
        post.threads@ == pre.threads@.update(ti, post.threads@[ti]),
        post.threads@[ti].tid == pre.threads@[ti].tid,
        post.threads@[ti].pid == pre.threads@[ti].pid,
        post.threads@[ti].state is EmitPending,
        wf_thread_state(post.threads@[ti].state),
        ({
            let h = emit_pending_interface(post.threads@[ti].state);
            &&& (emit_pending_id(post.threads@[ti].state) matches Some(id) ==> {
                &&& pre.table_contains(id)
                &&& pre.table_emitter(id) == pre.threads@[ti].pid
                &&& (forall|j: int|
                    0 <= j < pre.processes@.len()
                        ==> !(#[trigger] pre.processes@[j]).messages_to_answer@.contains(id))
                &&& (forall|i: int| !(#[trigger] pre.thread_pending_id(i, id)))
                &&& (forall|ii: int, k: int| !(#[trigger] pre.other_pending_id(ii, k, id)))
            })
            &&& (if is_new {
                &&& !pre.registry_contains(h)
                &&& post.interfaces@.len() == pre.interfaces@.len() + 1
                &&& post.interfaces@ == pre.interfaces@.push(post.interfaces@.last())
                &&& post.interfaces@.last().0@ == h
                &&& post.interfaces@.last().1 matches InterfaceState::Requested {
                    threads: ts,
                    other: os,
                } && ts@ == seq![pre.threads@[ti].tid] && os@.len() == 0
            } else {
                &&& 0 <= ri < pre.interfaces@.len()
                &&& pre.interfaces@[ri].0@ == h
                &&& pre.interfaces@[ri].1 is Requested
                &&& post.interfaces@.len() == pre.interfaces@.len()
                &&& post.interfaces@ == pre.interfaces@.update(ri, post.interfaces@[ri])
                &&& post.interfaces@[ri].0@ == h
                &&& requested_threads(post.interfaces@[ri].1) == requested_threads(
                    pre.interfaces@[ri].1,
                ).push(pre.threads@[ti].tid)
                &&& requested_other(post.interfaces@[ri].1) == requested_other(
                    pre.interfaces@[ri].1,
                )
                &&& post.interfaces@[ri].1 is Requested
            })
        }),
        post.processes@ == pre.processes@,
        post.reserved_pids@ == pre.reserved_pids@,
        post.messages_to_answer@ == pre.messages_to_answer@,
    ensures
        post.wf(),
{
    let tid = pre.threads@[ti].tid;
    let h = emit_pending_interface(post.threads@[ti].state);
    assert(post.pids_wf());
    assert(post.threads_wf());
    // The parked thread was runnable, so no waiting list holds it.
    assert forall|i: int, k: int|
        0 <= i < pre.interfaces@.len() && 0 <= k < requested_threads(
            pre.interfaces@[i].1,
        ).len() implies #[trigger] requested_threads(pre.interfaces@[i].1)[k] != tid by {
        if requested_threads(pre.interfaces@[i].1)[k] == tid {
            lemma_thread_index_unique(pre, ti);
            assert(is_emit_pending(pre.thread_of(tid).state));
        }
    }
    if is_new {
        lemma_registry_lookup_push(pre, post);
    } else {
        lemma_registry_lookup_update(pre, post, ri);
    }
    assert(post.interfaces_wf()) by {
        assert forall|i: int, k: int|
            0 <= i < post.interfaces@.len() && 0 <= k < requested_threads(
                post.interfaces@[i].1,
            ).len() implies {
            let t = #[trigger] requested_threads(post.interfaces@[i].1)[k];
            &&& post.is_live_tid(t)
            &&& is_emit_pending(post.thread_of(t).state)
            &&& emit_pending_interface(post.thread_of(t).state) == post.interfaces@[i].0@
        } by {
            let t = requested_threads(post.interfaces@[i].1)[k];
            let new_index: int = if is_new {
                pre.interfaces@.len() as int
            } else {
                ri
            };
            if i == new_index && k == requested_threads(post.interfaces@[i].1).len() - 1 && t
                == tid {
                lemma_thread_index_unique(pre, ti);
                lemma_thread_index_unique(post, ti);
                assert(post.thread_of(tid) == post.threads@[ti]);
            } else {
                assert(0 <= k < requested_threads(pre.interfaces@[i].1).len() && t
                    == requested_threads(pre.interfaces@[i].1)[k]);
                assert(pre.is_live_tid(t));
                let j = pre.thread_index_of(t);
                lemma_thread_index_unique(pre, j);
                assert(t != tid);
                assert(j != ti);
                assert(post.threads@[j] == pre.threads@[j]);
                lemma_thread_index_unique(post, j);
            }
        }
        assert forall|i: int, k1: int, k2: int|
            0 <= i < post.interfaces@.len() && 0 <= k1 < k2 < requested_threads(
                post.interfaces@[i].1,
            ).len() implies #[trigger] requested_threads(post.interfaces@[i].1)[k1]
            != #[trigger] requested_threads(post.interfaces@[i].1)[k2] by {
            let new_index: int = if is_new {
                pre.interfaces@.len() as int
            } else {
                ri
            };
            if i == new_index && k2 == requested_threads(post.interfaces@[i].1).len() - 1 {
                assert(requested_threads(post.interfaces@[i].1)[k2] == tid);
                if !is_new {
                    assert(requested_threads(post.interfaces@[i].1)[k1] == requested_threads(
                        pre.interfaces@[i].1,
                    )[k1]);
                    assert(requested_threads(pre.interfaces@[i].1)[k1] != tid);
                }
            }
        }
        assert forall|i: int|
            0 <= i < post.threads@.len() && is_emit_pending(
                (#[trigger] post.threads@[i]).state,
            ) implies {
            let h2 = emit_pending_interface(post.threads@[i].state);
            &&& post.registry_contains(h2)
            &&& requested_threads(post.registry_state(h2)).contains(post.threads@[i].tid)
        } by {
            let h2 = emit_pending_interface(post.threads@[i].state);
            if i == ti {
                assert(h2 == h);
                if is_new {
                    assert(requested_threads(post.registry_state(h))[0] == tid);
                } else {
                    assert(requested_threads(post.registry_state(h)).last() == tid);
                }
            } else {
                assert(post.threads@[i] == pre.threads@[i]);
                assert(pre.registry_contains(h2));
                assert(requested_threads(pre.registry_state(h2)).contains(pre.threads@[i].tid));
                if !is_new && h2 == h {
                    let k = choose|k: int|
                        0 <= k < requested_threads(pre.registry_state(h2)).len()
                            && requested_threads(pre.registry_state(h2))[k] == pre.threads@[i].tid;
                    assert(requested_threads(post.registry_state(h2))[k] == pre.threads@[i].tid);
                } else {
                    assert(h2 != h || is_new);
                    if is_new && h2 == h {
                        assert(!pre.registry_contains(h));
                    }
                    assert(post.registry_state(h2) == pre.registry_state(h2));
                }
            }
        }
    }
    assert(post.table_wf());
    assert(post.emitted_wf()) by {
        assert forall|j: int|
            0 <= j < post.messages_to_answer@.len() && post.is_live_pid(
                (#[trigger] post.messages_to_answer@[j]).1,
            ) implies post.proc_of(post.messages_to_answer@[j].1).emitted_messages@.contains(
            post.messages_to_answer@[j].0,
        ) by {
            assert(pre.is_live_pid(pre.messages_to_answer@[j].1) ==> pre.proc_of(
                pre.messages_to_answer@[j].1,
            ).emitted_messages@.contains(pre.messages_to_answer@[j].0));
        }
    }
    assert(post.owed_wf());
    assert(post.pending_wf()) by {
        assert forall|i: int, id2: MessageId|
            #[trigger] post.thread_pending_id(i, id2) implies post.table_contains(id2)
            && post.table_emitter(id2) == post.threads@[i].pid && (forall|j: int|
            0 <= j < post.processes@.len()
                ==> !(#[trigger] post.processes@[j]).messages_to_answer@.contains(id2)) by {
            if i == ti {
                assert(emit_pending_id(post.threads@[ti].state) == Some(id2));
            } else {
                assert(pre.thread_pending_id(i, id2));
            }
        }
        assert forall|i1: int, i2: int, id2: MessageId|
            #[trigger] post.thread_pending_id(i1, id2) && #[trigger] post.thread_pending_id(
                i2,
                id2,
            ) implies i1 == i2 by {
            if i1 != i2 {
                if i1 == ti {
                    assert(pre.thread_pending_id(i2, id2));
                } else if i2 == ti {
                    assert(pre.thread_pending_id(i1, id2));
                } else {
                    assert(pre.thread_pending_id(i1, id2));
                    assert(pre.thread_pending_id(i2, id2));
                }
            }
        }
        assert forall|ii: int, k: int, id2: MessageId|
            #[trigger] post.other_pending_id(ii, k, id2) implies post.table_contains(id2)
            && post.table_emitter(id2) == requested_other(post.interfaces@[ii].1)[k].emitter_pid
            && post.is_reserved_pid(requested_other(post.interfaces@[ii].1)[k].emitter_pid) && (
        forall|j: int|
            0 <= j < post.processes@.len()
                ==> !(#[trigger] post.processes@[j]).messages_to_answer@.contains(id2)) by {
            assert(pre.other_pending_id(ii, k, id2)) by {
                let new_index: int = if is_new {
                    pre.interfaces@.len() as int
                } else {
                    ri
                };
                if ii == new_index {
                    if is_new {
                        assert(requested_other(post.interfaces@[ii].1).len() == 0);
                    } else {
                        assert(requested_other(post.interfaces@[ii].1) == requested_other(
                            pre.interfaces@[ii].1,
                        ));
                    }
                }
            }
        }
        assert forall|ii1: int, k1: int, ii2: int, k2: int, id2: MessageId|
            #[trigger] post.other_pending_id(ii1, k1, id2) && #[trigger] post.other_pending_id(
                ii2,
                k2,
                id2,
            ) implies ii1 == ii2 && k1 == k2 by {
            let new_index: int = if is_new {
                pre.interfaces@.len() as int
            } else {
                ri
            };
            assert(pre.other_pending_id(ii1, k1, id2)) by {
                if ii1 == new_index && is_new {
                    assert(requested_other(post.interfaces@[ii1].1).len() == 0);
                }
            }
            assert(pre.other_pending_id(ii2, k2, id2)) by {
                if ii2 == new_index && is_new {
                    assert(requested_other(post.interfaces@[ii2].1).len() == 0);
                }
            }
        }
        assert forall|i: int, ii: int, k: int, id2: MessageId|
            #[trigger] post.thread_pending_id(i, id2) implies !(#[trigger] post.other_pending_id(
            ii,
            k,
            id2,
        )) by {
            if post.other_pending_id(ii, k, id2) {
                let new_index: int = if is_new {
                    pre.interfaces@.len() as int
                } else {
                    ri
                };
                assert(pre.other_pending_id(ii, k, id2)) by {
                    if ii == new_index && is_new {
                        assert(requested_other(post.interfaces@[ii].1).len() == 0);
                    }
                }
                if i == ti {
                    assert(emit_pending_id(post.threads@[ti].state) == Some(id2));
                } else {
                    assert(pre.thread_pending_id(i, id2));
                }
            }
        }
    }
    assert(post.queues_wf());
}

/// `true` exactly when `v` holds `p`.
fn pid_in_vec(v: &Vec<Pid>, p: Pid) -> (r: bool)
    ensures
        r == v@.contains(p),
{
    let mut i: usize = 0;
    while i < v.len()
        invariant
            i <= v@.len(),
            forall|j: int| 0 <= j < i ==> v@[j] != p,
        decreases v@.len() - i,
    {
        if v[i].0 == p.0 {
            return true;
        }
        i += 1;
    }
    proof {
        if v@.contains(p) {
            let j = choose|j: int| 0 <= j < v@.len() && v@[j] == p;
            assert(v@[j] != p);
        }
    }
    false
}

/// The invariant does not depend on the id pool or the event queue: two
/// cores with the same tables, processes and threads are equally well
/// formed.
proof fn lemma_wf_same_tables(a: Core, b: Core)
    requires
        a.wf(),
        b.processes@ == a.processes@,
        b.threads@ == a.threads@,
        b.interfaces@ == a.interfaces@,
        b.reserved_pids@ == a.reserved_pids@,
        b.messages_to_answer@ == a.messages_to_answer@,
    ensures
        b.wf(),
{
    assert forall|p: Pid| a.is_live_pid(p) implies b.is_live_pid(p) by {
        let i = choose|i: int| 0 <= i < a.processes@.len() && a.processes@[i].pid == p;
        assert(b.processes@[i].pid == p);
    }
    assert(b.pids_wf());
    assert(b.threads_wf()) by {
        assert forall|i: int|
            0 <= i < b.threads@.len() implies b.is_live_pid((#[trigger] b.threads@[i]).pid) by {
            assert(a.is_live_pid(a.threads@[i].pid));
        }
    }
    assert(b.interfaces_wf()) by {
        assert forall|i: int, k: int|
            0 <= i < b.interfaces@.len() && 0 <= k < requested_threads(
                b.interfaces@[i].1,
            ).len() implies {
            let t = #[trigger] requested_threads(b.interfaces@[i].1)[k];
            &&& b.is_live_tid(t)
            &&& is_emit_pending(b.thread_of(t).state)
            &&& emit_pending_interface(b.thread_of(t).state) == b.interfaces@[i].0@
        } by {
            let t = requested_threads(b.interfaces@[i].1)[k];
            assert(a.is_live_tid(t));
            let j = a.thread_index_of(t);
            lemma_thread_index_unique(a, j);
            lemma_thread_index_unique(b, j);
        }
        assert forall|i: int|
            0 <= i < b.threads@.len() && is_emit_pending((#[trigger] b.threads@[i]).state) implies {
            let h = emit_pending_interface(b.threads@[i].state);
            &&& b.registry_contains(h)
            &&& requested_threads(b.registry_state(h)).contains(b.threads@[i].tid)
        } by {
            let h = emit_pending_interface(a.threads@[i].state);
            assert(a.registry_contains(h));
            let j = a.registry_index_of(h);
            lemma_registry_index_unique(a, j);
            lemma_registry_index_unique(b, j);
        }
        assert forall|i: int|
            0 <= i < b.interfaces@.len() implies ((#[trigger] b.interfaces@[i]).1 matches
        InterfaceState::Process(p) ==> b.is_live_pid(p) || b.is_reserved_pid(p)) by {
            match a.interfaces@[i].1 {
                InterfaceState::Process(p) => {
                    assert(a.is_live_pid(p) || a.is_reserved_pid(p));
                },
                _ => {},
            }
        }
    }
    assert(b.table_wf()) by {
        assert forall|i: int|
            0 <= i < b.messages_to_answer@.len() implies b.is_live_pid(
            (#[trigger] b.messages_to_answer@[i]).1,
        ) || b.is_reserved_pid(b.messages_to_answer@[i].1) by {
            assert(a.is_live_pid(a.messages_to_answer@[i].1) || a.is_reserved_pid(
                a.messages_to_answer@[i].1,
            ));
        }
    }
    assert forall|x: MessageId| a.table_contains(x) implies b.table_contains(x)
        && b.table_emitter(x) == a.table_emitter(x) by {
        let i = choose|i: int|
            0 <= i < a.messages_to_answer@.len() && a.messages_to_answer@[i].0 == x;
        assert(b.messages_to_answer@[i].0 == x);
        let j1 = choose|j: int|
            0 <= j < a.messages_to_answer@.len() && a.messages_to_answer@[j].0 == x;
        let j2 = choose|j: int|
            0 <= j < b.messages_to_answer@.len() && b.messages_to_answer@[j].0 == x;
        if j1 != j2 {
            assert(a.messages_to_answer@[j1].0 != a.messages_to_answer@[j2].0);
        }
    }
    assert(b.emitted_wf()) by {
        assert forall|i: int, k: int|
            0 <= i < b.processes@.len() && 0 <= k
                < b.processes@[i].emitted_messages@.len() implies b.table_contains(
            #[trigger] b.processes@[i].emitted_messages@[k],
        ) && b.table_emitter(b.processes@[i].emitted_messages@[k]) == b.processes@[i].pid by {
            assert(a.table_contains(a.processes@[i].emitted_messages@[k]));
            assert(a.table_emitter(a.processes@[i].emitted_messages@[k]) == a.processes@[i].pid);
        }
        assert forall|j: int|
            0 <= j < b.messages_to_answer@.len() && b.is_live_pid(
                (#[trigger] b.messages_to_answer@[j]).1,
            ) implies b.proc_of(b.messages_to_answer@[j].1).emitted_messages@.contains(
            b.messages_to_answer@[j].0,
        ) by {
            let p = b.messages_to_answer@[j].1;
            assert(a.is_live_pid(p) || a.is_reserved_pid(p));
            if a.is_live_pid(p) {
                let i = a.proc_index_of(p);
                lemma_proc_index_unique(a, i);
                lemma_proc_index_unique(b, i);
            } else {
                assert(!a.is_live_pid(p));
                assert forall|i: int| 0 <= i < b.processes@.len() implies b.processes@[i].pid
                    != p by {
                    assert(a.processes@[i].pid == b.processes@[i].pid);
                }
                assert(!b.is_live_pid(p));
            }
        }
    }
    assert(b.owed_wf()) by {
        assert forall|i: int, k: int|
            0 <= i < b.processes@.len() && 0 <= k
                < b.processes@[i].messages_to_answer@.len() implies b.table_contains(
            #[trigger] b.processes@[i].messages_to_answer@[k],
        ) by {
            assert(a.table_contains(a.processes@[i].messages_to_answer@[k]));
        }
    }
    assert(b.pending_wf()) by {
        assert forall|i: int, id: MessageId|
            #[trigger] b.thread_pending_id(i, id) implies b.table_contains(id) && b.table_emitter(
            id,
        ) == b.threads@[i].pid && (forall|j: int|
            0 <= j < b.processes@.len()
                ==> !(#[trigger] b.processes@[j]).messages_to_answer@.contains(id)) by {
            assert(a.thread_pending_id(i, id));
            assert forall|j: int|
                0 <= j < b.processes@.len() implies !(
            #[trigger] b.processes@[j]).messages_to_answer@.contains(id) by {
                assert(!a.processes@[j].messages_to_answer@.contains(id));
                assert(b.processes@[j].messages_to_answer@
                    == a.processes@[j].messages_to_answer@);
            }
        }
        assert forall|i1: int, i2: int, id: MessageId|
            #[trigger] b.thread_pending_id(i1, id) && #[trigger] b.thread_pending_id(
                i2,
                id,
            ) implies i1 == i2 by {
            assert(a.thread_pending_id(i1, id));
            assert(a.thread_pending_id(i2, id));
        }
        assert forall|ii: int, k: int, id: MessageId|
            #[trigger] b.other_pending_id(ii, k, id) implies b.table_contains(id)
            && b.table_emitter(id) == requested_other(b.interfaces@[ii].1)[k].emitter_pid
            && b.is_reserved_pid(requested_other(b.interfaces@[ii].1)[k].emitter_pid) && (forall|
            j: int,
        |
            0 <= j < b.processes@.len()
                ==> !(#[trigger] b.processes@[j]).messages_to_answer@.contains(id)) by {
            assert(a.other_pending_id(ii, k, id));
            assert forall|j: int|
                0 <= j < b.processes@.len() implies !(
            #[trigger] b.processes@[j]).messages_to_answer@.contains(id) by {
                assert(!a.processes@[j].messages_to_answer@.contains(id));
                assert(b.processes@[j].messages_to_answer@
                    == a.processes@[j].messages_to_answer@);
            }
        }
        assert forall|ii1: int, k1: int, ii2: int, k2: int, id: MessageId|
            #[trigger] b.other_pending_id(ii1, k1, id) && #[trigger] b.other_pending_id(
                ii2,
                k2,
                id,
            ) implies ii1 == ii2 && k1 == k2 by {
            assert(a.other_pending_id(ii1, k1, id));
            assert(a.other_pending_id(ii2, k2, id));
        }
        assert forall|i: int, ii: int, k: int, id: MessageId|
            #[trigger] b.thread_pending_id(i, id) implies !(#[trigger] b.other_pending_id(
            ii,
            k,
            id,
        )) by {
            assert(a.thread_pending_id(i, id));
            if b.other_pending_id(ii, k, id) {
                assert(a.other_pending_id(ii, k, id));
            }
        }
    }
    assert(b.queues_wf()) by {
        assert forall|i: int, k: int|
            0 <= i < b.processes@.len() && 0 <= k
                < b.processes@[i].messages_queue@.len() implies wf_message(
            #[trigger] b.processes@[i].messages_queue@[k],
        ) by {
            assert(wf_message(a.processes@[i].messages_queue@[k]));
        }
    }
}

impl Core {
    /// The pid currently handling interface `h`, if a handler is registered.
    pub open spec fn handler_of(self, h: Seq<u8>) -> Option<Pid> {
        if self.registry_contains(h) {
            match self.registry_state(h) {
                InterfaceState::Process(p) => Some(p),
                InterfaceState::Requested { .. } => None,
            }
        } else {
            None
        }
    }

    /// Handles an `emit_message` extrinsic from the thread `tid`. The caller
    /// thread must be runnable (it was interrupted on the extrinsic).
    ///
    /// The interface is recorded among the emitter's used interfaces. With a
    /// registered handler, the message is queued on the handler (or surfaced
    /// as an event for a reserved handler) and the caller is resumed with
    /// `0`; a fresh message id is allocated, written to `message_id_write`
    /// and returned when an answer is expected. With no handler the caller
    /// is resumed with `1`, or parked when it allows delay. After a
    /// successful emission to a live handler, the driver wakes the handler
    /// with [`Core::wake_process`].
    #[verifier::rlimit(100)]
    #[verifier::spinoff_prover]
    pub fn emit_message(
        &mut self,
        tid: ThreadId,
        interface: InterfaceHash,
        message_id_write: Option<u32>,
        message: EncodedMessage,
        allow_delay: bool,
    ) -> (r: (Vec<CoreAction>, Option<MessageId>))
        requires
            old(self).wf(),
            old(self).is_live_tid(tid),
            old(self).thread_of(tid).state is Runnable,
            message@.len() <= MAX_MESSAGE_BODY,
            old(self).messages_to_answer@.len() < MAX_ID_TABLE,
        ensures
            final(self).wf(),
            final(self).reserved_pids@ == old(self).reserved_pids@,
            final(self).threads@.len() == old(self).threads@.len(),
            final(self).processes@.len() == old(self).processes@.len(),
            final(self).thread_of(tid).tid == tid,
            final(self).thread_of(tid).pid == old(self).thread_of(tid).pid,
            final(self).threads@[old(self).thread_index_of(tid)].tid == tid,
            forall|i: int|
                0 <= i < old(self).threads@.len() && i != old(self).thread_index_of(tid)
                    ==> final(self).threads@[i] == old(self).threads@[i],
            forall|j: int|
                0 <= j < old(self).processes@.len() ==> (#[trigger] final(self).processes@[j]).pid
                    == old(self).processes@[j].pid,
            forall|j: int|
                0 <= j < old(self).processes@.len() ==> ((#[trigger] final(self).processes@[j]).messages_queue@ == old(self).processes@[j].messages_queue@ || old(self).handler_of(
                    interface@,
                ) == Some(old(self).processes@[j].pid)),
            ({
                let emitter = old(self).thread_of(tid).pid;
                let u = old(self).proc_of(emitter).used_interfaces@;
                &&& ((exists|x: int| 0 <= x < u.len() && (#[trigger] u[x])@ == interface@)
                    ==> final(self).proc_of(emitter).used_interfaces@ == u)
                &&& (!(exists|x: int| 0 <= x < u.len() && (#[trigger] u[x])@ == interface@)
                    ==> final(self).proc_of(emitter).used_interfaces@.len() == u.len() + 1 && final(self).proc_of(emitter).used_interfaces@.subrange(0, u.len() as int) == u && (final(self).proc_of(emitter).used_interfaces@.last())@ == interface@)
            }),
            ({
                let h = interface@;
                let emitter = old(self).thread_of(tid).pid;
                let needs = message_id_write is Some;
                let handler = old(self).handler_of(h);
                &&& (needs && !(handler is None && !allow_delay) ==> (r.1 matches Some(id)
                    && id.0 >= 2
                    && !old(self).table_contains(id)
                    && final(self).messages_to_answer@ == old(self).messages_to_answer@.push(
                        (id, emitter),
                    )
                    && final(self).table_contains(id)
                    && final(self).table_emitter(id) == emitter))
                &&& (!needs ==> r.1 is None)
                &&& (!needs || (handler is None && !allow_delay) ==> final(self).messages_to_answer@
                    == old(self).messages_to_answer@)
                &&& (handler is None && !allow_delay ==> {
                    &&& r.1 is None
                    &&& r.0@.len() == 1
                    &&& (r.0@[0] matches CoreAction::Resume { tid: t, value } && t == tid && value
                        == Some(1u32))
                    &&& final(self).interfaces@ == old(self).interfaces@
                    &&& final(self).pending_events@ == old(self).pending_events@
                    &&& final(self).thread_of(tid).state is Runnable
                })
                &&& (handler matches Some(hp) ==> {
                    &&& final(self).interfaces@ == old(self).interfaces@
                    &&& final(self).thread_of(tid).state is Runnable
                    &&& (r.0@.last() matches CoreAction::Resume { tid: t, value } && t == tid
                        && value == Some(0u32))
                    &&& (needs ==> r.0@.len() == 2 && (r.0@[0] matches CoreAction::WriteMemory {
                        tid: t,
                        address,
                        data,
                    } && t == tid && Some(address) == message_id_write && data@
                        == crate::le::le_bytes_64(r.1.unwrap().0)))
                    &&& (!needs ==> r.0@.len() == 1)
                    &&& (old(self).is_reserved_pid(hp) ==> {
                        &&& final(self).pending_events@.len() == old(self).pending_events@.len()
                            + 1
                        &&& (final(self).pending_events@.last() matches
                        CoreRunOutcome::ReservedPidInterfaceMessage {
                            pid: p2,
                            message_id: m2,
                            interface: i2,
                            message: d2,
                        } && p2 == emitter && m2 == r.1 && i2@ == h && d2@ == message@)
                        &&& forall|i: int|
                            0 <= i < final(self).processes@.len()
                                ==> (#[trigger] final(self).processes@[i]).messages_queue@ == old(self).processes@[i].messages_queue@
                    })
                    &&& (!old(self).is_reserved_pid(hp) ==> {
                        &&& old(self).is_live_pid(hp)
                        &&& final(self).pending_events@ == old(self).pending_events@
                        &&& final(self).proc_of(hp).messages_queue@.len() == old(self).proc_of(
                            hp,
                        ).messages_queue@.len() + 1
                        &&& final(self).proc_of(hp).messages_queue@ == old(self).proc_of(
                            hp,
                        ).messages_queue@.push(final(self).proc_of(hp).messages_queue@.last())
                        &&& (final(self).proc_of(hp).messages_queue@.last() matches
                        KernelMessage::Interface {
                            interface: i2,
                            message_id: m2,
                            emitter_pid: e2,
                            actual_data: d2,
                        } && i2@ == h && m2 == r.1 && e2 == emitter && d2@ == message@)
                        &&& (needs ==> final(self).proc_of(hp).messages_to_answer@ == old(self).proc_of(hp).messages_to_answer@.push(r.1.unwrap()))
                        &&& (!needs ==> final(self).proc_of(hp).messages_to_answer@ == old(self).proc_of(hp).messages_to_answer@)
                    })
                })
                &&& (handler is None && allow_delay ==> {
                    &&& r.0@.len() == 0
                    &&& (final(self).thread_of(tid).state matches ThreadState::EmitPending {
                        interface: i2,
                        message_id: m2,
                        message_id_write: w2,
                        message: d2,
                    } && i2@ == h && m2 == r.1 && w2 == message_id_write && d2@ == message@)
                    &&& final(self).pending_events@.len() == old(self).pending_events@.len() + 1
                    &&& (final(self).pending_events@.last() matches
                    CoreRunOutcome::ThreadWaitUnavailableInterface { tid: t2, interface: i2 } && t2
                        == tid && i2@ == h)
                    &&& final(self).registry_contains(h)
                    &&& final(self).registry_state(h) is Requested
                    &&& requested_threads(final(self).registry_state(h)).last() == tid
                    &&& (old(self).registry_contains(h) ==> requested_threads(
                        final(self).registry_state(h),
                    ) == requested_threads(old(self).registry_state(h)).push(tid)
                        && requested_other(final(self).registry_state(h)) == requested_other(
                        old(self).registry_state(h),
                    ))
                    &&& (!old(self).registry_contains(h) ==> requested_threads(
                        final(self).registry_state(h),
                    ) == seq![tid] && requested_other(final(self).registry_state(h)).len() == 0)
                })
            }),
    {
        let ti = match self.find_thread_index(tid) {
            Some(i) => i,
            None => {
                proof {
                    assert(false);
                }
                0
            },
        };
        proof {
            lemma_thread_index_unique(*self, ti as int);
        }
        let emitter = self.threads[ti].pid;
        let pi = match self.find_process_index(emitter) {
            Some(i) => i,
            None => {
                proof {
                    assert(false);
                }
                0
            },
        };
        proof {
            lemma_proc_index_unique(*self, pi as int);
        }

        // Record the interface among the emitter's used interfaces.
        let ghost s0 = *self;
        let mut p = self.processes.remove(pi);
        if !hash_in_vec(&p.used_interfaces, &interface) {
            p.used_interfaces.push(interface.clone());
        }
        self.processes.insert(pi, p);
        proof {
            assert(self.processes@ =~= s0.processes@.update(pi as int, self.processes@[pi as int]));
            assert forall|k: int|
                0 <= k < self.processes@[pi as int].messages_queue@.len() implies wf_message(
                #[trigger] self.processes@[pi as int].messages_queue@[k],
            ) by {
                assert(self.processes@[pi as int].messages_queue@
                    == s0.processes@[pi as int].messages_queue@);
                assert(wf_message(s0.processes@[pi as int].messages_queue@[k]));
            }
            lemma_update_process_queue(s0, *self, pi as int);
            lemma_thread_index_unique(*self, ti as int);
            lemma_proc_index_unique(*self, pi as int);
        }

        let mut actions: Vec<CoreAction> = Vec::new();

        // Consult the registry.
        let ridx = self.find_interface_index(&interface);
        let handler: Option<Pid> = match ridx {
            Some(ri) => match &self.interfaces[ri].1 {
                InterfaceState::Process(hp) => Some(*hp),
                InterfaceState::Requested { .. } => None,
            },
            None => None,
        };
        proof {
            if self.registry_contains(interface@) {
                lemma_registry_index_unique(*self, self.registry_index_of(interface@));
            }
            assert(handler == self.handler_of(interface@));
            assert(self.handler_of(interface@) == old(self).handler_of(interface@));
        }

        match handler {
            None if !allow_delay => {
                actions.push(CoreAction::Resume { tid, value: Some(1) });
                (actions, None)
            },
            None => {
                // Park the thread until a handler registers the interface.
                let ghost su = *self;
                let mid: Option<MessageId> = match message_id_write {
                    Some(_) => Some(self.register_fresh_id(pi, ti, emitter)),
                    None => None,
                };
                let ghost s3 = *self;
                proof {
                    match mid {
                        Some(id) => {
                            assert forall|j: int|
                                0 <= j < s3.processes@.len() implies !(
                            #[trigger] s3.processes@[j]).messages_to_answer@.contains(id) by {
                                assert(!su.processes@[j].messages_to_answer@.contains(id));
                                assert(s3.processes@[j].messages_to_answer@
                                    == su.processes@[j].messages_to_answer@);
                            }
                            assert forall|i: int| !(#[trigger] s3.thread_pending_id(i, id)) by {
                                assert(!su.thread_pending_id(i, id));
                                assert(s3.threads@ == su.threads@);
                            }
                            assert forall|ii: int, k: int| !(#[trigger] s3.other_pending_id(
                                ii,
                                k,
                                id,
                            )) by {
                                assert(!su.other_pending_id(ii, k, id));
                                assert(s3.interfaces@ == su.interfaces@);
                            }
                        },
                        None => {},
                    }
                }
                let mut t = self.threads.remove(ti);
                t.state = ThreadState::EmitPending {
                    interface: interface.clone(),
                    message_id: mid,
                    message_id_write,
                    message,
                };
                self.threads.insert(ti, t);
                proof {
                    assert(self.threads@ =~= s3.threads@.update(
                        ti as int,
                        self.threads@[ti as int],
                    ));
                }
                match self.find_interface_index(&interface) {
                    Some(ri) => {
                        let ghost s4 = *self;
                        let (key, st) = self.interfaces.remove(ri);
                        match st {
                            InterfaceState::Requested { mut threads, other } => {
                                threads.push(tid);
                                self.interfaces.insert(
                                    ri,
                                    (key, InterfaceState::Requested { threads, other }),
                                );
                            },
                            InterfaceState::Process(_) => {
                                proof {
                                    assert(false);
                                }
                                self.interfaces.insert(ri, (key, st));
                            },
                        }
                        proof {
                            assert(self.interfaces@ =~= s3.interfaces@.update(
                                ri as int,
                                self.interfaces@[ri as int],
                            ));
                            lemma_park_emit(s3, *self, ti as int, ri as int, false);
                            lemma_registry_lookup_update(s3, *self, ri as int);
                            lemma_thread_index_unique(*self, ti as int);
                        }
                    },
                    None => {
                        let mut ts: Vec<ThreadId> = Vec::new();
                        ts.push(tid);
                        self.interfaces.push(
                            (
                                interface.clone(),
                                InterfaceState::Requested { threads: ts, other: Vec::new() },
                            ),
                        );
                        proof {
                            assert(self.interfaces@ =~= s3.interfaces@.push(
                                self.interfaces@.last(),
                            ));
                            lemma_park_emit(s3, *self, ti as int, 0, true);
                            lemma_registry_lookup_push(s3, *self);
                            lemma_thread_index_unique(*self, ti as int);
                        }
                    },
                }
                let ghost s5 = *self;
                self.pending_events.push(
                    CoreRunOutcome::ThreadWaitUnavailableInterface { tid, interface },
                );
                proof {
                    lemma_wf_same_tables(s5, *self);
                    lemma_thread_index_unique(*self, ti as int);
                }
                (actions, mid)
            },
            Some(hp) => {
                let ghost su = *self;
                let mid: Option<MessageId> = match message_id_write {
                    Some(ptr) => {
                        let id = self.register_fresh_id(pi, ti, emitter);
                        let mut bytes: Vec<u8> = Vec::new();
                        crate::le::push_le_64(&mut bytes, id.0);
                        actions.push(
                            CoreAction::WriteMemory { tid, address: ptr, data: bytes },
                        );
                        Some(id)
                    },
                    None => None,
                };
                let ghost s2 = *self;
                proof {
                    lemma_thread_index_unique(*self, ti as int);
                }
                if pid_in_vec(&self.reserved_pids, hp) {
                    self.pending_events.push(
                        CoreRunOutcome::ReservedPidInterfaceMessage {
                            pid: emitter,
                            message_id: mid,
                            interface,
                            message,
                        },
                    );
                    actions.push(CoreAction::Resume { tid, value: Some(0) });
                    proof {
                        lemma_wf_same_tables(s2, *self);
                        lemma_thread_index_unique(*self, ti as int);
                    }
                    (actions, mid)
                } else {
                    proof {
                        assert(s0.is_live_pid(hp) || s0.is_reserved_pid(hp)) by {
                            let ri2 = s0.registry_index_of(interface@);
                            lemma_registry_index_unique(s0, ri2);
                        }
                        assert(self.is_live_pid(hp)) by {
                            let i = choose|i: int|
                                0 <= i < s0.processes@.len() && s0.processes@[i].pid == hp;
                            assert(self.processes@[i].pid == hp);
                        }
                    }
                    let hpi = match self.find_process_index(hp) {
                        Some(i) => i,
                        None => {
                            proof {
                                assert(false);
                            }
                            0
                        },
                    };
                    proof {
                        lemma_proc_index_unique(*self, hpi as int);
                    }
                    let ghost s6 = *self;
                    proof {
                        match mid {
                            Some(id) => {
                                assert forall|j: int|
                                    0 <= j < s6.processes@.len() implies !(
                                #[trigger] s6.processes@[j]).messages_to_answer@.contains(id) by {
                                    assert(!su.processes@[j].messages_to_answer@.contains(id));
                                    assert(s6.processes@[j].messages_to_answer@
                                        == su.processes@[j].messages_to_answer@);
                                }
                                assert forall|i: int| !(#[trigger] s6.thread_pending_id(
                                    i,
                                    id,
                                )) by {
                                    assert(!su.thread_pending_id(i, id));
                                    assert(s6.threads@ == su.threads@);
                                }
                                assert forall|ii: int, k: int| !(#[trigger] s6.other_pending_id(
                                    ii,
                                    k,
                                    id,
                                )) by {
                                    assert(!su.other_pending_id(ii, k, id));
                                    assert(s6.interfaces@ == su.interfaces@);
                                }
                            },
                            None => {},
                        }
                    }
                    let mut hproc = self.processes.remove(hpi);
                    hproc.messages_queue.push(
                        KernelMessage::Interface {
                            interface,
                            message_id: mid,
                            emitter_pid: emitter,
                            actual_data: message,
                        },
                    );
                    match mid {
                        Some(id) => {
                            hproc.messages_to_answer.push(id);
                        },
                        None => {},
                    }
                    self.processes.insert(hpi, hproc);
                    proof {
                        assert(self.processes@ =~= s6.processes@.update(
                            hpi as int,
                            self.processes@[hpi as int],
                        ));
                        assert forall|k: int|
                            0 <= k
                                < self.processes@[hpi as int].messages_queue@.len() implies wf_message(
                            #[trigger] self.processes@[hpi as int].messages_queue@[k],
                        ) by {
                            if k < s6.processes@[hpi as int].messages_queue@.len() {
                                assert(self.processes@[hpi as int].messages_queue@[k]
                                    == s6.processes@[hpi as int].messages_queue@[k]);
                                assert(wf_message(s6.processes@[hpi as int].messages_queue@[k]));
                            }
                        }
                        match mid {
                            Some(id) => {
                                lemma_enqueue_with_owed(s6, *self, hpi as int, id);
                            },
                            None => {
                                lemma_update_process_queue(s6, *self, hpi as int);
                            },
                        }
                        lemma_thread_index_unique(*self, ti as int);
                        lemma_proc_index_unique(*self, hpi as int);
                    }
                    actions.push(CoreAction::Resume { tid, value: Some(0) });
                    (actions, mid)
                }
            },
        }
    }

    /// Allocates a fresh message id for an emission by `emitter` (the
    /// process at `pi`, owner of the thread at `ti`): enters it into the
    /// outstanding-response table and the emitter's emitted list.
    fn register_fresh_id(&mut self, pi: usize, ti: usize, emitter: Pid) -> (id: MessageId)
        requires
            old(self).wf(),
            old(self).messages_to_answer@.len() < MAX_ID_TABLE,
            0 <= pi < old(self).processes@.len(),
            old(self).processes@[pi as int].pid == emitter,
        ensures
            final(self).wf(),
            id.0 >= 2,
            !old(self).table_contains(id),
            final(self).table_contains(id),
            final(self).table_emitter(id) == emitter,
            final(self).messages_to_answer@ == old(self).messages_to_answer@.push((id, emitter)),
            final(self).threads@ == old(self).threads@,
            final(self).interfaces@ == old(self).interfaces@,
            final(self).reserved_pids@ == old(self).reserved_pids@,
            final(self).pending_events@ == old(self).pending_events@,
            final(self).processes@.len() == old(self).processes@.len(),
            final(self).processes@ == old(self).processes@.update(
                pi as int,
                final(self).processes@[pi as int],
            ),
            final(self).processes@[pi as int].pid == emitter,
            final(self).processes@[pi as int].emitted_messages@ == old(self).processes@[pi as int].emitted_messages@.push(
                id,
            ),
            final(self).processes@[pi as int].messages_to_answer@ == old(self).processes@[pi as int].messages_to_answer@,
            final(self).processes@[pi as int].messages_queue@ == old(self).processes@[pi as int].messages_queue@,
            final(self).processes@[pi as int].used_interfaces@ == old(self).processes@[pi as int].used_interfaces@,
            final(self).processes@[pi as int].registered_interfaces@ == old(self).processes@[pi as int].registered_interfaces@,
            forall|j: int|
                0 <= j < final(self).processes@.len()
                    ==> !(#[trigger] old(self).processes@[j]).messages_to_answer@.contains(id),
            forall|i: int| !(#[trigger] old(self).thread_pending_id(i, id)),
            forall|ii: int, k: int| !(#[trigger] old(self).other_pending_id(ii, k, id)),
    {
        proof {
            lemma_proc_index_unique(*self, pi as int);
        }
        let ghost s0 = *self;
        let id = self.alloc_message_id();
        proof {
            lemma_fresh_not_referenced(s0, id);
        }
        let ghost s1 = *self;
        self.messages_to_answer.push((id, emitter));
        let mut p = self.processes.remove(pi);
        p.emitted_messages.push(id);
        self.processes.insert(pi, p);
        proof {
            lemma_wf_same_tables(s0, s1);
            assert(self.processes@ =~= s1.processes@.update(pi as int, self.processes@[pi as int]));
            assert(s1.proc_index_of(emitter) == pi as int) by {
                lemma_proc_index_unique(s1, pi as int);
            }
            lemma_register_emission(s1, *self, emitter, id);
        }
        id
    }
}

impl Core {
    /// Handles a `next_message` extrinsic: parks the thread on the given id
    /// list and attempts immediate delivery. When `block` is false and no
    /// queued message matches, the thread is resumed with `0` instead of
    /// being parked. Returns the engine operations to perform.
    pub fn next_message(
        &mut self,
        tid: ThreadId,
        msg_ids: Vec<u64>,
        msg_ids_ptr: u32,
        out_pointer: u32,
        out_size: u32,
        block: bool,
    ) -> (actions: Vec<CoreAction>)
        requires
            old(self).wf(),
            old(self).is_live_tid(tid),
            old(self).thread_of(tid).state is Runnable,
            msg_ids@.len() <= MAX_MSG_IDS,
            msg_ids_ptr + 8 * msg_ids@.len() <= u32::MAX,
        ensures
            final(self).wf(),
            final(self).interfaces@ == old(self).interfaces@,
            final(self).reserved_pids@ == old(self).reserved_pids@,
            final(self).messages_to_answer@ == old(self).messages_to_answer@,
            final(self).pending_events@ == old(self).pending_events@,
            final(self).threads@.len() == old(self).threads@.len(),
            final(self).processes@.len() == old(self).processes@.len(),
            forall|i: int|
                0 <= i < old(self).threads@.len() && i != old(self).thread_index_of(tid)
                    ==> final(self).threads@[i] == old(self).threads@[i],
            final(self).thread_of(tid).tid == tid && final(self).thread_of(tid).pid == old(self).thread_of(tid).pid,
            final(self).threads@[old(self).thread_index_of(tid)].tid == tid,
            final(self).threads@[old(self).thread_index_of(tid)].pid == old(self).thread_of(
                tid,
            ).pid,
            forall|i: int|
                0 <= i < old(self).processes@.len() && i != old(self).proc_index_of(
                    old(self).thread_of(tid).pid,
                ) ==> final(self).processes@[i] == old(self).processes@[i],
            ({
                let pid = old(self).thread_of(tid).pid;
                let q = old(self).proc_of(pid).messages_queue@;
                let f = first_match_index(q, msg_ids@);
                let newq = final(self).proc_of(pid).messages_queue@;
                let state = final(self).thread_of(tid).state;
                &&& (f == -1 && block ==> actions@.len() == 0 && newq == q && (
                state matches ThreadState::WaitMessage {
                    msg_ids: m,
                    msg_ids_ptr: a,
                    out_pointer: o,
                    out_size: s,
                    block: b,
                } && m@ == msg_ids@ && a == msg_ids_ptr && o == out_pointer && s == out_size && b))
                &&& (f == -1 && !block ==> actions@.len() == 1 && newq == q && state is Runnable
                    && (actions@[0] matches CoreAction::Resume { tid: t, value } && t == tid
                    && value == Some(0u32)))
                &&& (f >= 0 && encoded_len_of(q[f]) > out_size ==> actions@.len() == 1 && newq == q
                    && state is Runnable && (actions@[0] matches CoreAction::Resume {
                    tid: t,
                    value,
                } && t == tid && value == Some(encoded_len_of(q[f]) as u32)))
                &&& (f >= 0 && encoded_len_of(q[f]) <= out_size ==> {
                    let m = q[f];
                    let k = first_id_index(msg_ids@, match_key(m));
                    &&& newq == q.remove(f)
                    &&& state is Runnable
                    &&& actions@.len() == 3
                    &&& (actions@[0] matches CoreAction::WriteMemory { tid: t, address, data }
                        && t == tid && address == out_pointer && data@ == frame_of(m, k as u32))
                    &&& (actions@[1] matches CoreAction::WriteMemory { tid: t, address, data }
                        && t == tid && address == msg_ids_ptr + 8 * k && data@ == seq![0u8; 8])
                    &&& (actions@[2] matches CoreAction::Resume { tid: t, value } && t == tid
                        && value == Some(encoded_len_of(m) as u32))
                })
            }),
    {
        let ti = match self.find_thread_index(tid) {
            Some(i) => i,
            None => {
                proof {
                    assert(false);
                }
                0
            },
        };
        proof {
            lemma_thread_index_unique(*self, ti as int);
        }
        let pid = self.threads[ti].pid;
        let pi = match self.find_process_index(pid) {
            Some(i) => i,
            None => {
                proof {
                    assert(false);
                }
                0
            },
        };
        proof {
            lemma_proc_index_unique(*self, pi as int);
        }

        let mut actions: Vec<CoreAction> = Vec::new();
        let ghost pre = *self;
        let mut p = self.processes.remove(pi);
        let outcome = deliver_from_queue(
            &mut p.messages_queue,
            tid,
            &msg_ids,
            msg_ids_ptr,
            out_pointer,
            out_size,
            &mut actions,
        );
        self.processes.insert(pi, p);
        proof {
            assert(self.processes@ =~= pre.processes@.update(pi as int, self.processes@[pi as int]));
            lemma_update_process_queue(pre, *self, pi as int);
        }

        let ghost mid = *self;
        let parked = match outcome {
            DeliverOutcome::NoMatch => {
                if block {
                    let mut t = self.threads.remove(ti);
                    t.state = ThreadState::WaitMessage {
                        msg_ids,
                        msg_ids_ptr,
                        out_pointer,
                        out_size,
                        block,
                    };
                    self.threads.insert(ti, t);
                    true
                } else {
                    actions.push(CoreAction::Resume { tid, value: Some(0) });
                    false
                }
            },
            _ => false,
        };
        proof {
            if parked {
                assert(self.threads@ =~= mid.threads@.update(ti as int, self.threads@[ti as int]));
                lemma_update_thread_state(mid, *self, ti as int);
            } else {
                assert(*self =~= mid);
            }
            lemma_thread_index_unique(*self, ti as int);
            lemma_proc_index_unique(*self, pi as int);
            lemma_first_match_props(pre.proc_of(pid).messages_queue@, msg_ids@);
        }
        actions
    }
}

impl Core {
    /// If the thread at `ti` waits for a message, scans its process queue
    /// and tries to hand it the oldest matching one, as `next_message` does.
    fn try_wake_thread(&mut self, ti: usize) -> (actions: Vec<CoreAction>)
        requires
            old(self).wf(),
            0 <= ti < old(self).threads@.len(),
        ensures
            final(self).wf(),
            final(self).interfaces@ == old(self).interfaces@,
            final(self).reserved_pids@ == old(self).reserved_pids@,
            final(self).messages_to_answer@ == old(self).messages_to_answer@,
            final(self).pending_events@ == old(self).pending_events@,
            final(self).threads@.len() == old(self).threads@.len(),
            final(self).processes@.len() == old(self).processes@.len(),
            forall|i: int|
                0 <= i < old(self).threads@.len() && i != ti ==> final(self).threads@[i] == old(self).threads@[i],
            final(self).threads@[ti as int].tid == old(self).threads@[ti as int].tid,
            final(self).threads@[ti as int].pid == old(self).threads@[ti as int].pid,
            final(self).threads@[ti as int].state is Runnable || final(self).threads@[ti as int]
                == old(self).threads@[ti as int],
            !(old(self).threads@[ti as int].state is WaitMessage) ==> final(self).threads@ == old(self).threads@ && final(self).processes@ == old(self).processes@ && actions@.len() == 0,
            forall|j: int|
                0 <= j < old(self).processes@.len() && j != old(self).proc_index_of(
                    old(self).threads@[ti as int].pid,
                ) ==> final(self).processes@[j] == old(self).processes@[j],
            ({
                let pj = old(self).proc_index_of(old(self).threads@[ti as int].pid);
                &&& final(self).processes@[pj].pid == old(self).processes@[pj].pid
                &&& final(self).processes@[pj].registered_interfaces@ == old(self).processes@[pj].registered_interfaces@
                &&& final(self).processes@[pj].used_interfaces@ == old(self).processes@[pj].used_interfaces@
                &&& final(self).processes@[pj].emitted_messages@ == old(self).processes@[pj].emitted_messages@
                &&& final(self).processes@[pj].messages_to_answer@ == old(self).processes@[pj].messages_to_answer@
                &&& final(self).processes@[pj].messages_queue@.len() <= old(self).processes@[pj].messages_queue@.len()
            }),
            (old(self).threads@[ti as int].state matches ThreadState::WaitMessage {
                msg_ids,
                msg_ids_ptr,
                out_pointer,
                out_size,
                ..
            } ==> ({
                let pj = old(self).proc_index_of(old(self).threads@[ti as int].pid);
                let q = old(self).processes@[pj].messages_queue@;
                let f = first_match_index(q, msg_ids@);
                let t = old(self).threads@[ti as int].tid;
                &&& (f == -1 ==> final(self).threads@ == old(self).threads@ && final(self).processes@[pj].messages_queue@ == q && actions@.len() == 0)
                &&& (f >= 0 && encoded_len_of(q[f]) > out_size ==> final(self).threads@[ti as int].state is Runnable && final(self).processes@[pj].messages_queue@ == q && actions@.len() == 1 && (actions@[0] matches CoreAction::Resume { tid: t2, value } && t2 == t && value == Some(encoded_len_of(q[f]) as u32)))
                &&& (f >= 0 && encoded_len_of(q[f]) <= out_size ==> ({
                    let m = q[f];
                    let k = first_id_index(msg_ids@, match_key(m));
                    &&& final(self).processes@[pj].messages_queue@ == q.remove(f)
                    &&& final(self).threads@[ti as int].state is Runnable
                    &&& actions@.len() == 3
                    &&& (actions@[0] matches CoreAction::WriteMemory { tid: t2, address, data } && t2 == t && address == out_pointer && data@ == frame_of(m, k as u32))
                    &&& (actions@[1] matches CoreAction::WriteMemory { tid: t2, address, data } && t2 == t && address == msg_ids_ptr + 8 * k && data@ == seq![0u8; 8])
                    &&& (actions@[2] matches CoreAction::Resume { tid: t2, value } && t2 == t && value == Some(encoded_len_of(m) as u32))
                }))
            })),
    {
        let is_wait = match &self.threads[ti].state {
            ThreadState::WaitMessage { .. } => true,
            _ => false,
        };
        if !is_wait {
            return Vec::new();
        }
        let (msg_ids, msg_ids_ptr, out_pointer, out_size) = match &self.threads[ti].state {
            ThreadState::WaitMessage { msg_ids, msg_ids_ptr, out_pointer, out_size, .. } => (
                clone_ids(msg_ids),
                *msg_ids_ptr,
                *out_pointer,
                *out_size,
            ),
            _ => {
                proof {
                    assert(false);
                }
                (Vec::new(), 0, 0, 0)
            },
        };
        let tid = self.threads[ti].tid;
        let pid = self.threads[ti].pid;
        proof {
            lemma_thread_index_unique(*self, ti as int);
        }
        let pi = match self.find_process_index(pid) {
            Some(i) => i,
            None => {
                proof {
                    assert(false);
                }
                0
            },
        };
        proof {
            lemma_proc_index_unique(*self, pi as int);
        }

        let mut actions: Vec<CoreAction> = Vec::new();
        let ghost pre = *self;
        let mut p = self.processes.remove(pi);
        let outcome = deliver_from_queue(
            &mut p.messages_queue,
            tid,
            &msg_ids,
            msg_ids_ptr,
            out_pointer,
            out_size,
            &mut actions,
        );
        self.processes.insert(pi, p);
        proof {
            assert(self.processes@ =~= pre.processes@.update(pi as int, self.processes@[pi as int]));
            lemma_update_process_queue(pre, *self, pi as int);
            match outcome {
                DeliverOutcome::NoMatch => {
                    assert(self.processes@[pi as int].messages_queue@
                        == pre.processes@[pi as int].messages_queue@);
                },
                DeliverOutcome::TooBig { .. } => {
                    assert(self.processes@[pi as int].messages_queue@
                        == pre.processes@[pi as int].messages_queue@);
                },
                DeliverOutcome::Delivered { .. } => {
                    lemma_first_match_props(pre.processes@[pi as int].messages_queue@, msg_ids@);
                    assert(self.processes@[pi as int].messages_queue@.len()
                        == pre.processes@[pi as int].messages_queue@.len() - 1);
                },
            }
        }
        let ghost mid = *self;
        match outcome {
            DeliverOutcome::NoMatch => {},
            _ => {
                let mut t = self.threads.remove(ti);
                t.state = ThreadState::Runnable;
                self.threads.insert(ti, t);
                proof {
                    assert(self.threads@ =~= mid.threads@.update(ti as int, self.threads@[ti as int]));
                    lemma_update_thread_state(mid, *self, ti as int);
                }
            },
        }
        proof {
            assert(old(self).proc_index_of(old(self).threads@[ti as int].pid) == pi as int) by {
                lemma_proc_index_unique(*old(self), pi as int);
            }
            assert(self.processes@[pi as int].pid == old(self).processes@[pi as int].pid);
            assert(self.processes@[pi as int].registered_interfaces@ == old(self).processes@[pi as int].registered_interfaces@);
            assert(self.processes@[pi as int].used_interfaces@ == old(self).processes@[pi as int].used_interfaces@);
            assert(self.processes@[pi as int].emitted_messages@ == old(self).processes@[pi as int].emitted_messages@);
            assert(self.processes@[pi as int].messages_to_answer@ == old(self).processes@[pi as int].messages_to_answer@);
            assert(self.processes@[pi as int].messages_queue@.len() <= old(self).processes@[pi as int].messages_queue@.len());
        }
        actions
    }

    /// Scans the threads of process `pid` in order and, for each one parked
    /// in `next_message`, tries to hand it a queued message. Called by the
    /// driver after anything was put on the process's queue.
    pub fn wake_process(&mut self, pid: Pid) -> (actions: Vec<CoreAction>)
        requires
            old(self).wf(),
        ensures
            final(self).wf(),
            final(self).interfaces@ == old(self).interfaces@,
            final(self).reserved_pids@ == old(self).reserved_pids@,
            final(self).messages_to_answer@ == old(self).messages_to_answer@,
            final(self).pending_events@ == old(self).pending_events@,
            final(self).threads@.len() == old(self).threads@.len(),
            final(self).processes@.len() == old(self).processes@.len(),
            forall|i: int|
                0 <= i < old(self).threads@.len() && old(self).threads@[i].pid != pid ==> final(self).threads@[i] == old(self).threads@[i],
            forall|i: int|
                0 <= i < old(self).threads@.len() ==> (#[trigger] final(self).threads@[i]).tid
                    == old(self).threads@[i].tid && final(self).threads@[i].pid == old(self).threads@[i].pid,
            forall|j: int|
                0 <= j < old(self).processes@.len() && old(self).processes@[j].pid != pid ==> final(self).processes@[j] == old(self).processes@[j],
            forall|j: int|
                0 <= j < old(self).processes@.len() ==> (#[trigger] final(self).processes@[j]).pid
                    == old(self).processes@[j].pid && final(self).processes@[j].emitted_messages@
                    == old(self).processes@[j].emitted_messages@ && final(self).processes@[j].messages_to_answer@ == old(self).processes@[j].messages_to_answer@
                    && final(self).processes@[j].used_interfaces@ == old(self).processes@[j].used_interfaces@ && final(self).processes@[j].registered_interfaces@
                    == old(self).processes@[j].registered_interfaces@,
            forall|i: int|
                0 <= i < old(self).threads@.len() ==> (#[trigger] final(self).threads@[i] == old(self).threads@[i] || (old(self).threads@[i].state is WaitMessage && final(self).threads@[i].state is Runnable)),
            old(self).is_live_pid(pid) ==> ({
                let pj = old(self).proc_index_of(pid);
                forall|i: int|
                    0 <= i < final(self).threads@.len() && (#[trigger] final(self).threads@[i]).pid == pid ==> (final(self).threads@[i].state matches ThreadState::WaitMessage { msg_ids, .. } ==> first_match_index(final(self).processes@[pj].messages_queue@, msg_ids@) == -1)
            }),
    {
        proof {
            if old(self).is_live_pid(pid) {
                lemma_proc_index_unique(*old(self), old(self).proc_index_of(pid));
            }
        }
        let mut actions: Vec<CoreAction> = Vec::new();
        let mut i: usize = 0;
        while i < self.threads.len()
            invariant
                self.wf(),
                self.interfaces@ == old(self).interfaces@,
                self.reserved_pids@ == old(self).reserved_pids@,
                self.messages_to_answer@ == old(self).messages_to_answer@,
                self.pending_events@ == old(self).pending_events@,
                self.threads@.len() == old(self).threads@.len(),
                self.processes@.len() == old(self).processes@.len(),
                forall|k: int|
                    0 <= k < old(self).threads@.len() && old(self).threads@[k].pid != pid
                        ==> self.threads@[k] == old(self).threads@[k],
                forall|k: int|
                    0 <= k < old(self).threads@.len() ==> (#[trigger] self.threads@[k]).tid == old(self).threads@[k].tid && self.threads@[k].pid == old(self).threads@[k].pid,
                forall|j: int|
                    0 <= j < old(self).processes@.len() && old(self).processes@[j].pid != pid
                        ==> self.processes@[j] == old(self).processes@[j],
                forall|j: int|
                    0 <= j < old(self).processes@.len() ==> (#[trigger] self.processes@[j]).pid
                        == old(self).processes@[j].pid && self.processes@[j].emitted_messages@
                        == old(self).processes@[j].emitted_messages@
                        && self.processes@[j].messages_to_answer@ == old(self).processes@[j].messages_to_answer@ && self.processes@[j].used_interfaces@
                        == old(self).processes@[j].used_interfaces@
                        && self.processes@[j].registered_interfaces@ == old(self).processes@[j].registered_interfaces@,
                forall|i2: int|
                    0 <= i2 < old(self).threads@.len() ==> (#[trigger] self.threads@[i2] == old(self).threads@[i2] || (old(self).threads@[i2].state is WaitMessage && self.threads@[i2].state is Runnable)),
                old(self).is_live_pid(pid) ==> ({
                    let pj = old(self).proc_index_of(pid);
                    &&& 0 <= pj < self.processes@.len()
                    &&& self.processes@[pj].pid == pid
                    &&& forall|i2: int|
                        0 <= i2 < i && (#[trigger] self.threads@[i2]).pid == pid ==> (self.threads@[i2].state matches ThreadState::WaitMessage { msg_ids, .. } ==> first_match_index(self.processes@[pj].messages_queue@, msg_ids@) == -1)
                }),
            decreases self.threads@.len() - i,
        {
            if self.threads[i].pid.0 == pid.0 {
                let ghost snap = *self;
                proof {
                    assert(snap.is_live_pid(pid)) by {
                        assert(snap.threads@[i as int].pid == pid);
                        assert(snap.is_live_pid(snap.threads@[i as int].pid));
                    }
                    assert(old(self).is_live_pid(pid)) by {
                        let w = choose|w: int|
                            0 <= w < snap.processes@.len() && snap.processes@[w].pid == pid;
                        assert(old(self).processes@[w].pid == pid);
                    }
                    lemma_proc_index_unique(snap, old(self).proc_index_of(pid));
                }
                let mut step = self.try_wake_thread(i);
                actions.append(&mut step);
                proof {
                    let ghost pj = old(self).proc_index_of(pid);
                    assert(snap.proc_index_of(snap.threads@[i as int].pid) == pj) by {
                        lemma_proc_index_unique(snap, pj);
                    }
                    assert forall|i2: int|
                        0 <= i2 < i + 1 && (#[trigger] self.threads@[i2]).pid == pid implies (
                    self.threads@[i2].state matches ThreadState::WaitMessage { msg_ids, .. }
                        ==> first_match_index(self.processes@[pj].messages_queue@, msg_ids@)
                        == -1) by {
                        match self.threads@[i2].state {
                            ThreadState::WaitMessage { msg_ids, .. } => {
                                if i2 < i {
                                    assert(self.threads@[i2] == snap.threads@[i2]);
                                    assert(first_match_index(
                                        snap.processes@[pj].messages_queue@,
                                        msg_ids@,
                                    ) == -1);
                                    if self.processes@[pj].messages_queue@
                                        != snap.processes@[pj].messages_queue@ {
                                        match snap.threads@[i as int].state {
                                            ThreadState::WaitMessage { msg_ids: wids, .. } => {
                                                let q = snap.processes@[pj].messages_queue@;
                                                let f = first_match_index(q, wids@);
                                                lemma_first_match_props(q, wids@);
                                                assert(f >= 0) by {
                                                    if f == -1 {
                                                        assert(self.processes@[pj].messages_queue@
                                                            == q);
                                                    }
                                                }
                                                assert(0 <= f < q.len());
                                                lemma_no_match_after_remove(q, msg_ids@, f);
                                            },
                                            _ => {
                                                assert(self.processes@[pj].messages_queue@
                                                    == snap.processes@[pj].messages_queue@);
                                            },
                                        }
                                    }
                                } else {
                                    assert(self.threads@[i2].tid == snap.threads@[i as int].tid);
                                    match snap.threads@[i as int].state {
                                        ThreadState::WaitMessage { msg_ids: wids, .. } => {
                                            let q = snap.processes@[pj].messages_queue@;
                                            let f = first_match_index(q, wids@);
                                            if f >= 0 {
                                                assert(self.threads@[i2].state is Runnable);
                                            }
                                        },
                                        _ => {
                                            assert(self.threads@[i2] == snap.threads@[i2]);
                                        },
                                    }
                                }
                            },
                            _ => {},
                        }
                    }
                }
            }
            i += 1;
        }
        actions
    }
}

/// Waking a parked emission: the thread leaves `EmitPending` and its entry
/// in the waiting list of its interface is dropped. Preserves the invariant.
proof fn lemma_unpark(pre: Core, post: Core, ti: int, ri: int, li: int)
    requires
        pre.wf(),
        0 <= ti < pre.threads@.len(),
        pre.threads@[ti].state is EmitPending,
        0 <= ri < pre.interfaces@.len(),
        pre.interfaces@[ri].0@ == emit_pending_interface(pre.threads@[ti].state),
        0 <= li < requested_threads(pre.interfaces@[ri].1).len(),
        requested_threads(pre.interfaces@[ri].1)[li] == pre.threads@[ti].tid,
        post.threads@ == pre.threads@.update(ti, post.threads@[ti]),
        post.threads@[ti].tid == pre.threads@[ti].tid,
        post.threads@[ti].pid == pre.threads@[ti].pid,
        post.threads@[ti].state is Runnable,
        post.interfaces@.len() == pre.interfaces@.len(),
        post.interfaces@ == pre.interfaces@.update(ri, post.interfaces@[ri]),
        post.interfaces@[ri].0@ == pre.interfaces@[ri].0@,
        post.interfaces@[ri].1 is Requested,
        requested_threads(post.interfaces@[ri].1) == requested_threads(
            pre.interfaces@[ri].1,
        ).remove(li),
        requested_other(post.interfaces@[ri].1) == requested_other(pre.interfaces@[ri].1),
        post.processes@ == pre.processes@,
        post.reserved_pids@ == pre.reserved_pids@,
        post.messages_to_answer@ == pre.messages_to_answer@,
    ensures
        post.wf(),
        forall|i: int, k: int|
            0 <= i < post.interfaces@.len() && 0 <= k < requested_threads(
                post.interfaces@[i].1,
            ).len() ==> #[trigger] requested_threads(post.interfaces@[i].1)[k]
                != pre.threads@[ti].tid,
{
    let tid = pre.threads@[ti].tid;
    let h = emit_pending_interface(pre.threads@[ti].state);
    lemma_registry_lookup_update(pre, post, ri);
    lemma_thread_index_unique(pre, ti);
    // The thread is listed only at (ri, li).
    assert forall|i: int, k: int|
        0 <= i < pre.interfaces@.len() && 0 <= k < requested_threads(pre.interfaces@[i].1).len()
            && !(i == ri && k == li) implies #[trigger] requested_threads(pre.interfaces@[i].1)[k]
        != tid by {
        if requested_threads(pre.interfaces@[i].1)[k] == tid {
            assert(emit_pending_interface(pre.thread_of(tid).state) == pre.interfaces@[i].0@);
            assert(pre.interfaces@[i].0@ == h);
            assert(i == ri) by {
                if i != ri {
                    assert(pre.interfaces@[i].0@ != pre.interfaces@[ri].0@);
                }
            }
        }
    }
    assert forall|i: int, k: int|
        0 <= i < post.interfaces@.len() && 0 <= k < requested_threads(
            post.interfaces@[i].1,
        ).len() implies #[trigger] requested_threads(post.interfaces@[i].1)[k] != tid by {
        if i == ri {
            let old_ts = requested_threads(pre.interfaces@[ri].1);
            if k < li {
                assert(requested_threads(post.interfaces@[i].1)[k] == old_ts[k]);
            } else {
                assert(requested_threads(post.interfaces@[i].1)[k] == old_ts[k + 1]);
            }
        }
    }
    assert(post.pids_wf());
    assert(post.threads_wf());
    assert(post.interfaces_wf()) by {
        assert forall|i: int, k: int|
            0 <= i < post.interfaces@.len() && 0 <= k < requested_threads(
                post.interfaces@[i].1,
            ).len() implies {
            let t = #[trigger] requested_threads(post.interfaces@[i].1)[k];
            &&& post.is_live_tid(t)
            &&& is_emit_pending(post.thread_of(t).state)
            &&& emit_pending_interface(post.thread_of(t).state) == post.interfaces@[i].0@
        } by {
            let t = requested_threads(post.interfaces@[i].1)[k];
            let old_ts = requested_threads(pre.interfaces@[i].1);
            let ghost ok: int = if i == ri && k >= li {
                k + 1
            } else {
                k
            };
            assert(t == old_ts[ok]);
            assert(pre.is_live_tid(t));
            let j = pre.thread_index_of(t);
            lemma_thread_index_unique(pre, j);
            assert(t != tid);
            assert(j != ti);
            assert(post.threads@[j] == pre.threads@[j]);
            lemma_thread_index_unique(post, j);
        }
        assert forall|i: int, k1: int, k2: int|
            0 <= i < post.interfaces@.len() && 0 <= k1 < k2 < requested_threads(
                post.interfaces@[i].1,
            ).len() implies #[trigger] requested_threads(post.interfaces@[i].1)[k1]
            != #[trigger] requested_threads(post.interfaces@[i].1)[k2] by {
            if i == ri {
                let old_ts = requested_threads(pre.interfaces@[i].1);
                let ghost o1: int = if k1 >= li {
                    k1 + 1
                } else {
                    k1
                };
                let ghost o2: int = if k2 >= li {
                    k2 + 1
                } else {
                    k2
                };
                assert(requested_threads(post.interfaces@[i].1)[k1] == old_ts[o1]);
                assert(requested_threads(post.interfaces@[i].1)[k2] == old_ts[o2]);
            }
        }
        assert forall|i: int|
            0 <= i < post.threads@.len() && is_emit_pending(
                (#[trigger] post.threads@[i]).state,
            ) implies {
            let h2 = emit_pending_interface(post.threads@[i].state);
            &&& post.registry_contains(h2)
            &&& requested_threads(post.registry_state(h2)).contains(post.threads@[i].tid)
        } by {
            assert(i != ti);
            assert(post.threads@[i] == pre.threads@[i]);
            let h2 = emit_pending_interface(pre.threads@[i].state);
            assert(pre.registry_contains(h2));
            assert(requested_threads(pre.registry_state(h2)).contains(pre.threads@[i].tid));
            if h2 == h {
                let k = choose|k: int|
                    0 <= k < requested_threads(pre.registry_state(h2)).len() && requested_threads(
                        pre.registry_state(h2),
                    )[k] == pre.threads@[i].tid;
                lemma_registry_index_unique(pre, ri);
                assert(pre.registry_state(h2) == pre.interfaces@[ri].1);
                assert(k != li) by {
                    lemma_thread_index_unique(pre, i);
                }
                let ghost nk: int = if k > li {
                    k - 1
                } else {
                    k
                };
                assert(requested_threads(post.registry_state(h2))[nk] == pre.threads@[i].tid);
            } else {
                assert(post.registry_state(h2) == pre.registry_state(h2));
            }
        }
    }
    assert(post.table_wf());
    assert(post.emitted_wf());
    assert(post.owed_wf());
    assert(post.pending_wf()) by {
        assert forall|ii: int, k: int, id: MessageId|
            #[trigger] post.other_pending_id(ii, k, id) implies #[trigger] pre.other_pending_id(
            ii,
            k,
            id,
        ) && requested_other(post.interfaces@[ii].1)[k] == requested_other(
            pre.interfaces@[ii].1,
        )[k] by {
            assert(requested_other(post.interfaces@[ii].1) == requested_other(
                pre.interfaces@[ii].1,
            ));
        }
        assert forall|ii: int, k: int, id: MessageId|
            #[trigger] pre.other_pending_id(ii, k, id) implies #[trigger] post.other_pending_id(
            ii,
            k,
            id,
        ) by {
            assert(requested_other(post.interfaces@[ii].1) == requested_other(
                pre.interfaces@[ii].1,
            ));
        }
        assert forall|i: int, id: MessageId|
            #[trigger] post.thread_pending_id(i, id) implies post.table_contains(id)
            && post.table_emitter(id) == post.threads@[i].pid && (forall|j: int|
            0 <= j < post.processes@.len()
                ==> !(#[trigger] post.processes@[j]).messages_to_answer@.contains(id)) by {
            assert(i != ti);
            assert(pre.thread_pending_id(i, id));
        }
        assert forall|i1: int, i2: int, id: MessageId|
            #[trigger] post.thread_pending_id(i1, id) && #[trigger] post.thread_pending_id(
                i2,
                id,
            ) implies i1 == i2 by {
            assert(i1 != ti && i2 != ti);
            assert(pre.thread_pending_id(i1, id));
            assert(pre.thread_pending_id(i2, id));
        }
        assert forall|ii: int, k: int, id: MessageId|
            #[trigger] post.other_pending_id(ii, k, id) implies post.table_contains(id)
            && post.table_emitter(id) == requested_other(post.interfaces@[ii].1)[k].emitter_pid
            && post.is_reserved_pid(requested_other(post.interfaces@[ii].1)[k].emitter_pid) && (
        forall|j: int|
            0 <= j < post.processes@.len()
                ==> !(#[trigger] post.processes@[j]).messages_to_answer@.contains(id)) by {
            assert(pre.other_pending_id(ii, k, id));
            assert(requested_other(post.interfaces@[ii].1)[k] == requested_other(
                pre.interfaces@[ii].1,
            )[k]);
        }
        assert forall|ii1: int, k1: int, ii2: int, k2: int, id: MessageId|
            #[trigger] post.other_pending_id(ii1, k1, id) && #[trigger] post.other_pending_id(
                ii2,
                k2,
                id,
            ) implies ii1 == ii2 && k1 == k2 by {
            assert(pre.other_pending_id(ii1, k1, id));
            assert(pre.other_pending_id(ii2, k2, id));
        }
        assert forall|i: int, ii: int, k: int, id: MessageId|
            #[trigger] post.thread_pending_id(i, id) implies !(#[trigger] post.other_pending_id(
            ii,
            k,
            id,
        )) by {
            assert(i != ti);
            assert(pre.thread_pending_id(i, id));
            if post.other_pending_id(ii, k, id) {
                assert(pre.other_pending_id(ii, k, id));
            }
        }
    }
    assert(post.queues_wf());
}

/// Dropping the first queued handlerless message of a registry entry
/// preserves the invariant.
proof fn lemma_unqueue_other(pre: Core, post: Core, ri: int)
    requires
        pre.wf(),
        0 <= ri < pre.interfaces@.len(),
        requested_other(pre.interfaces@[ri].1).len() > 0,
        post.interfaces@.len() == pre.interfaces@.len(),
        post.interfaces@ == pre.interfaces@.update(ri, post.interfaces@[ri]),
        post.interfaces@[ri].0@ == pre.interfaces@[ri].0@,
        post.interfaces@[ri].1 is Requested,
        requested_threads(post.interfaces@[ri].1) == requested_threads(pre.interfaces@[ri].1),
        requested_other(post.interfaces@[ri].1) == requested_other(pre.interfaces@[ri].1).remove(
            0,
        ),
        post.processes@ == pre.processes@,
        post.threads@ == pre.threads@,
        post.reserved_pids@ == pre.reserved_pids@,
        post.messages_to_answer@ == pre.messages_to_answer@,
    ensures
        post.wf(),
{
    lemma_registry_lookup_update(pre, post, ri);
    assert(post.pids_wf());
    assert(post.threads_wf());
    assert(post.interfaces_wf()) by {
        assert forall|i: int, k: int|
            0 <= i < post.interfaces@.len() && 0 <= k < requested_threads(
                post.interfaces@[i].1,
            ).len() implies {
            let t = #[trigger] requested_threads(post.interfaces@[i].1)[k];
            &&& post.is_live_tid(t)
            &&& is_emit_pending(post.thread_of(t).state)
            &&& emit_pending_interface(post.thread_of(t).state) == post.interfaces@[i].0@
        } by {
            let t = requested_threads(post.interfaces@[i].1)[k];
            assert(t == requested_threads(pre.interfaces@[i].1)[k]);
            assert(pre.is_live_tid(t));
            let j = pre.thread_index_of(t);
            lemma_thread_index_unique(pre, j);
            lemma_thread_index_unique(post, j);
        }
        assert forall|i: int|
            0 <= i < post.threads@.len() && is_emit_pending(
                (#[trigger] post.threads@[i]).state,
            ) implies {
            let h2 = emit_pending_interface(post.threads@[i].state);
            &&& post.registry_contains(h2)
            &&& requested_threads(post.registry_state(h2)).contains(post.threads@[i].tid)
        } by {
            let h2 = emit_pending_interface(pre.threads@[i].state);
            assert(pre.registry_contains(h2));
            assert(requested_threads(pre.registry_state(h2)).contains(pre.threads@[i].tid));
            if h2 == pre.interfaces@[ri].0@ {
                lemma_registry_index_unique(pre, ri);
            } else {
                assert(post.registry_state(h2) == pre.registry_state(h2));
            }
        }
    }
    assert(post.table_wf());
    assert(post.emitted_wf());
    assert(post.owed_wf());
    assert(post.pending_wf()) by {
        assert forall|i: int, id: MessageId|
            #[trigger] post.thread_pending_id(i, id) implies post.table_contains(id)
            && post.table_emitter(id) == post.threads@[i].pid && (forall|j: int|
            0 <= j < post.processes@.len()
                ==> !(#[trigger] post.processes@[j]).messages_to_answer@.contains(id)) by {
            assert(pre.thread_pending_id(i, id));
        }
        assert forall|i1: int, i2: int, id: MessageId|
            #[trigger] post.thread_pending_id(i1, id) && #[trigger] post.thread_pending_id(
                i2,
                id,
            ) implies i1 == i2 by {
            assert(pre.thread_pending_id(i1, id));
            assert(pre.thread_pending_id(i2, id));
        }
        assert forall|ii: int, k: int, id: MessageId|
            #[trigger] post.other_pending_id(ii, k, id) implies post.table_contains(id)
            && post.table_emitter(id) == requested_other(post.interfaces@[ii].1)[k].emitter_pid
            && post.is_reserved_pid(requested_other(post.interfaces@[ii].1)[k].emitter_pid) && (
        forall|j: int|
            0 <= j < post.processes@.len()
                ==> !(#[trigger] post.processes@[j]).messages_to_answer@.contains(id)) by {
            let ghost ok: int = if ii == ri {
                k + 1
            } else {
                k
            };
            assert(pre.other_pending_id(ii, ok, id)) by {
                if ii == ri {
                    assert(requested_other(post.interfaces@[ii].1)[k] == requested_other(
                        pre.interfaces@[ii].1,
                    )[k + 1]);
                }
            }
            assert(requested_other(post.interfaces@[ii].1)[k] == requested_other(
                pre.interfaces@[ii].1,
            )[ok]);
        }
        assert forall|ii1: int, k1: int, ii2: int, k2: int, id: MessageId|
            #[trigger] post.other_pending_id(ii1, k1, id) && #[trigger] post.other_pending_id(
                ii2,
                k2,
                id,
            ) implies ii1 == ii2 && k1 == k2 by {
            let ghost o1: int = if ii1 == ri {
                k1 + 1
            } else {
                k1
            };
            let ghost o2: int = if ii2 == ri {
                k2 + 1
            } else {
                k2
            };
            assert(pre.other_pending_id(ii1, o1, id)) by {
                if ii1 == ri {
                    assert(requested_other(post.interfaces@[ii1].1)[k1] == requested_other(
                        pre.interfaces@[ii1].1,
                    )[o1]);
                }
            }
            assert(pre.other_pending_id(ii2, o2, id)) by {
                if ii2 == ri {
                    assert(requested_other(post.interfaces@[ii2].1)[k2] == requested_other(
                        pre.interfaces@[ii2].1,
                    )[o2]);
                }
            }
        }
        assert forall|i: int, ii: int, k: int, id: MessageId|
            #[trigger] post.thread_pending_id(i, id) implies !(#[trigger] post.other_pending_id(
            ii,
            k,
            id,
        )) by {
            assert(pre.thread_pending_id(i, id));
            if post.other_pending_id(ii, k, id) {
                let ghost ok: int = if ii == ri {
                    k + 1
                } else {
                    k
                };
                assert(pre.other_pending_id(ii, ok, id)) by {
                    if ii == ri {
                        assert(requested_other(post.interfaces@[ii].1)[k] == requested_other(
                            pre.interfaces@[ii].1,
                        )[ok]);
                    }
                }
            }
        }
    }
    assert(post.queues_wf());
}

/// Replacing an emptied pending entry, or adding a fresh entry, with a
/// handler preserves the invariant.
proof fn lemma_set_handler_entry(pre: Core, post: Core, ri: int, is_new: bool, handler: Pid)
    requires
        pre.wf(),
        pre.is_live_pid(handler) || pre.is_reserved_pid(handler),
        ({
            if is_new {
                &&& !pre.registry_contains(post.interfaces@.last().0@)
                &&& post.interfaces@.len() == pre.interfaces@.len() + 1
                &&& post.interfaces@ == pre.interfaces@.push(post.interfaces@.last())
                &&& post.interfaces@.last().1 == InterfaceState::Process(handler)
            } else {
                &&& 0 <= ri < pre.interfaces@.len()
                &&& pre.interfaces@[ri].1 is Requested
                &&& requested_threads(pre.interfaces@[ri].1).len() == 0
                &&& requested_other(pre.interfaces@[ri].1).len() == 0
                &&& post.interfaces@.len() == pre.interfaces@.len()
                &&& post.interfaces@ == pre.interfaces@.update(ri, post.interfaces@[ri])
                &&& post.interfaces@[ri].0@ == pre.interfaces@[ri].0@
                &&& post.interfaces@[ri].1 == InterfaceState::Process(handler)
            }
        }),
        post.processes@ == pre.processes@,
        post.threads@ == pre.threads@,
        post.reserved_pids@ == pre.reserved_pids@,
        post.messages_to_answer@ == pre.messages_to_answer@,
    ensures
        post.wf(),
{
    if is_new {
        lemma_registry_lookup_push(pre, post);
    } else {
        lemma_registry_lookup_update(pre, post, ri);
    }
    assert(post.pids_wf());
    assert(post.threads_wf());
    assert(post.interfaces_wf()) by {
        assert forall|i: int, k: int|
            0 <= i < post.interfaces@.len() && 0 <= k < requested_threads(
                post.interfaces@[i].1,
            ).len() implies {
            let t = #[trigger] requested_threads(post.interfaces@[i].1)[k];
            &&& post.is_live_tid(t)
            &&& is_emit_pending(post.thread_of(t).state)
            &&& emit_pending_interface(post.thread_of(t).state) == post.interfaces@[i].0@
        } by {
            let t = requested_threads(post.interfaces@[i].1)[k];
            assert(t == requested_threads(pre.interfaces@[i].1)[k]);
            assert(pre.is_live_tid(t));
            let j = pre.thread_index_of(t);
            lemma_thread_index_unique(pre, j);
            lemma_thread_index_unique(post, j);
        }
        assert forall|i: int|
            0 <= i < post.threads@.len() && is_emit_pending(
                (#[trigger] post.threads@[i]).state,
            ) implies {
            let h2 = emit_pending_interface(post.threads@[i].state);
            &&& post.registry_contains(h2)
            &&& requested_threads(post.registry_state(h2)).contains(post.threads@[i].tid)
        } by {
            let h2 = emit_pending_interface(pre.threads@[i].state);
            assert(pre.registry_contains(h2));
            assert(requested_threads(pre.registry_state(h2)).contains(pre.threads@[i].tid));
            if is_new {
                assert(h2 != post.interfaces@.last().0@);
                assert(post.registry_state(h2) == pre.registry_state(h2));
            } else {
                if h2 == pre.interfaces@[ri].0@ {
                    lemma_registry_index_unique(pre, ri);
                    assert(requested_threads(pre.registry_state(h2)).len() == 0);
                } else {
                    assert(post.registry_state(h2) == pre.registry_state(h2));
                }
            }
        }
    }
    assert(post.table_wf());
    assert(post.emitted_wf());
    assert(post.owed_wf());
    assert(post.pending_wf()) by {
        assert forall|i: int, id: MessageId|
            #[trigger] post.thread_pending_id(i, id) implies post.table_contains(id)
            && post.table_emitter(id) == post.threads@[i].pid && (forall|j: int|
            0 <= j < post.processes@.len()
                ==> !(#[trigger] post.processes@[j]).messages_to_answer@.contains(id)) by {
            assert(pre.thread_pending_id(i, id));
        }
        assert forall|i1: int, i2: int, id: MessageId|
            #[trigger] post.thread_pending_id(i1, id) && #[trigger] post.thread_pending_id(
                i2,
                id,
            ) implies i1 == i2 by {
            assert(pre.thread_pending_id(i1, id));
            assert(pre.thread_pending_id(i2, id));
        }
        assert forall|ii: int, k: int, id: MessageId|
            #[trigger] post.other_pending_id(ii, k, id) implies post.table_contains(id)
            && post.table_emitter(id) == requested_other(post.interfaces@[ii].1)[k].emitter_pid
            && post.is_reserved_pid(requested_other(post.interfaces@[ii].1)[k].emitter_pid) && (
        forall|j: int|
            0 <= j < post.processes@.len()
                ==> !(#[trigger] post.processes@[j]).messages_to_answer@.contains(id)) by {
            assert(pre.other_pending_id(ii, k, id)) by {
                if is_new {
                    if ii == pre.interfaces@.len() {
                        assert(requested_other(post.interfaces@[ii].1).len() == 0);
                    }
                } else {
                    if ii == ri {
                        assert(requested_other(post.interfaces@[ii].1).len() == 0);
                    }
                }
            }
            assert(requested_other(post.interfaces@[ii].1)[k] == requested_other(
                pre.interfaces@[ii].1,
            )[k]);
        }
        assert forall|ii1: int, k1: int, ii2: int, k2: int, id: MessageId|
            #[trigger] post.other_pending_id(ii1, k1, id) && #[trigger] post.other_pending_id(
                ii2,
                k2,
                id,
            ) implies ii1 == ii2 && k1 == k2 by {
            assert(pre.other_pending_id(ii1, k1, id)) by {
                assert(requested_other(post.interfaces@[ii1].1)[k1] == requested_other(
                    pre.interfaces@[ii1].1,
                )[k1]);
            }
            assert(pre.other_pending_id(ii2, k2, id)) by {
                assert(requested_other(post.interfaces@[ii2].1)[k2] == requested_other(
                    pre.interfaces@[ii2].1,
                )[k2]);
            }
        }
        assert forall|i: int, ii: int, k: int, id: MessageId|
            #[trigger] post.thread_pending_id(i, id) implies !(#[trigger] post.other_pending_id(
            ii,
            k,
            id,
        )) by {
            assert(pre.thread_pending_id(i, id));
            if post.other_pending_id(ii, k, id) {
                assert(pre.other_pending_id(ii, k, id)) by {
                    assert(requested_other(post.interfaces@[ii].1)[k] == requested_other(
                        pre.interfaces@[ii].1,
                    )[k]);
                }
            }
        }
    }
    assert(post.queues_wf());
}

/// Looking a live pid up after a push of a fresh process finds the old record.
proof fn lemma_proc_of_push(pre: Core, post: Core, p: Pid)
    requires
        pre.pids_wf(),
        pre.is_live_pid(p),
        post.processes@.len() == pre.processes@.len() + 1,
        post.processes@ == pre.processes@.push(post.processes@.last()),
        post.processes@.last().pid != p,
    ensures
        post.is_live_pid(p),
        post.proc_of(p) == pre.proc_of(p),
{
    let i = choose|i: int| 0 <= i < pre.processes@.len() && pre.processes@[i].pid == p;
    assert(post.processes@[i].pid == p);
    let i1 = pre.proc_index_of(p);
    let i2 = post.proc_index_of(p);
    assert(0 <= i1 < pre.processes@.len() && pre.processes@[i1].pid == p);
    assert(0 <= i2 < post.processes@.len() && post.processes@[i2].pid == p);
    assert(i2 < pre.processes@.len());
    if i1 != i2 {
        assert(pre.processes@[i1].pid != pre.processes@[i2].pid);
    }
}

/// `m` matches one of the ids a thread waits on.
pub open spec fn matches_ids(ids: Seq<u64>, m: KernelMessage) -> bool {
    exists|k: int| 0 <= k < ids.len() && ids[k] == match_key(m)
}

/// Position of the first queued message matching one of `ids`; `-1` if none.
pub open spec fn first_match_index(q: Seq<KernelMessage>, ids: Seq<u64>) -> int
    decreases q.len(),
{
    if q.len() == 0 {
        -1
    } else if matches_ids(ids, q[0]) {
        0
    } else {
        let r = first_match_index(q.drop_first(), ids);
        if r < 0 {
            -1
        } else {
            1 + r
        }
    }
}

/// Position of the first occurrence of `key` in `ids`; `-1` if none.
pub open spec fn first_id_index(ids: Seq<u64>, key: u64) -> int
    decreases ids.len(),
{
    if ids.len() == 0 {
        -1
    } else if ids[0] == key {
        0
    } else {
        let r = first_id_index(ids.drop_first(), key);
        if r < 0 {
            -1
        } else {
            1 + r
        }
    }
}

/// What `first_id_index` returns: the position of the first occurrence of
/// `key`, every earlier slot differing from it; `-1` exactly when `key` does
/// not occur. This is the duplicate rule: the first occurrence is chosen.
pub proof fn lemma_first_id_props(ids: Seq<u64>, key: u64)
    ensures
        first_id_index(ids, key) >= -1,
        first_id_index(ids, key) == -1 ==> forall|k: int| 0 <= k < ids.len() ==> ids[k] != key,
        first_id_index(ids, key) >= 0 ==> {
            let f = first_id_index(ids, key);
            &&& 0 <= f < ids.len()
            &&& ids[f] == key
            &&& forall|k: int| 0 <= k < f ==> ids[k] != key
        },
    decreases ids.len(),
{
    if ids.len() == 0 {
    } else if ids[0] == key {
    } else {
        lemma_first_id_props(ids.drop_first(), key);
        if first_id_index(ids, key) == -1 {
            assert forall|k: int| 0 <= k < ids.len() implies ids[k] != key by {
                if k >= 1 {
                    assert(ids.drop_first()[k - 1] == ids[k]);
                }
            }
        } else {
            let f = first_id_index(ids, key);
            assert(f == 1 + first_id_index(ids.drop_first(), key));
            assert(ids[f] == ids.drop_first()[f - 1]);
            assert forall|k: int| 0 <= k < f implies ids[k] != key by {
                if k >= 1 {
                    assert(ids.drop_first()[k - 1] == ids[k]);
                }
            }
        }
    }
}

/// What `first_match_index` returns: the position of the oldest queued
/// message that matches `ids`, no earlier message matching; `-1` exactly
/// when none matches. This is the delivery-order rule: among the messages a
/// thread waits on, the earliest-enqueued one is delivered first.
pub proof fn lemma_first_match_props(q: Seq<KernelMessage>, ids: Seq<u64>)
    ensures
        first_match_index(q, ids) >= -1,
        first_match_index(q, ids) == -1 ==> forall|j: int|
            0 <= j < q.len() ==> !matches_ids(ids, q[j]),
        first_match_index(q, ids) >= 0 ==> {
            let f = first_match_index(q, ids);
            &&& 0 <= f < q.len()
            &&& matches_ids(ids, q[f])
            &&& forall|j: int| 0 <= j < f ==> !matches_ids(ids, q[j])
        },
    decreases q.len(),
{
    if q.len() == 0 {
    } else if matches_ids(ids, q[0]) {
    } else {
        lemma_first_match_props(q.drop_first(), ids);
        if first_match_index(q, ids) == -1 {
            assert forall|j: int| 0 <= j < q.len() implies !matches_ids(ids, q[j]) by {
                if j >= 1 {
                    assert(q.drop_first()[j - 1] == q[j]);
                }
            }
        } else {
            let f = first_match_index(q, ids);
            assert(f == 1 + first_match_index(q.drop_first(), ids));
            assert(q[f] == q.drop_first()[f - 1]);
            assert forall|j: int| 0 <= j < f implies !matches_ids(ids, q[j]) by {
                if j >= 1 {
                    assert(q.drop_first()[j - 1] == q[j]);
                }
            }
        }
    }
}

/// If two queued messages both match, the first match does not come after
/// either of them: of two deliverable messages the earlier-enqueued is
/// delivered first.
pub proof fn lemma_fifo_order(q: Seq<KernelMessage>, ids: Seq<u64>, j1: int, j2: int)
    requires
        0 <= j1 < j2 < q.len(),
        matches_ids(ids, q[j1]),
        matches_ids(ids, q[j2]),
    ensures
        0 <= first_match_index(q, ids) <= j1 < j2,
{
    lemma_first_match_props(q, ids);
}

/// A queue in which nothing matches keeps matching nothing when a message
/// is removed.
pub proof fn lemma_no_match_after_remove(q: Seq<KernelMessage>, ids: Seq<u64>, x: int)
    requires
        first_match_index(q, ids) == -1,
        0 <= x < q.len(),
    ensures
        first_match_index(q.remove(x), ids) == -1,
{
    lemma_first_match_props(q, ids);
    lemma_first_match_props(q.remove(x), ids);
    if first_match_index(q.remove(x), ids) >= 0 {
        let f = first_match_index(q.remove(x), ids);
        assert(matches_ids(ids, q.remove(x)[f]));
        let ghost of: int = if f < x {
            f
        } else {
            f + 1
        };
        assert(q.remove(x)[f] == q[of]);
        assert(!matches_ids(ids, q[of]));
    }
}

/// Outcome of trying to hand a queued message to one waiting thread.
#[derive(Debug)]
pub enum DeliverOutcome {
    /// No queued message matches what the thread waits on.
    NoMatch,
    /// The oldest matching message does not fit the thread's buffer; the
    /// thread was resumed with the needed size and the message stays queued.
    TooBig {
        /// Encoded length of the matching message.
        size: usize,
    },
    /// The oldest matching message was written out and removed.
    Delivered {
        /// Position the message had in the queue.
        queue_index: usize,
        /// Position in the polled id list that matched.
        index_in_list: usize,
    },
}

/// Encodes `m` as a wire frame with the given `index_in_list`.
pub fn encode_kernel_message(m: &KernelMessage, idx: u32) -> (r: Vec<u8>)
    ensures
        r@ == frame_of(*m, idx),
{
    match m {
        KernelMessage::Interface { interface, message_id, emitter_pid, actual_data } => {
            wire::build_interface_message(interface, *message_id, *emitter_pid, idx, actual_data)
                .into_bytes()
        },
        KernelMessage::Response { message_id, actual_data } => {
            let body = match actual_data {
                Ok(d) => Ok(d),
                Err(_) => Err(()),
            };
            wire::build_response_message(*message_id, idx, body).into_bytes()
        },
        KernelMessage::ProcessDestroyed { pid } => {
            wire::build_process_destroyed_message(*pid, idx).into_bytes()
        },
    }
}

/// Length in bytes of the wire frame of `m`.
pub fn encoded_len(m: &KernelMessage) -> (r: usize)
    requires
        wf_message(*m),
    ensures
        r == encoded_len_of(*m),
{
    match m {
        KernelMessage::Interface { actual_data, .. } => 53 + actual_data.0.len(),
        KernelMessage::Response { actual_data: Ok(d), .. } => 14 + d.0.len(),
        KernelMessage::Response { actual_data: Err(_), .. } => 14,
        KernelMessage::ProcessDestroyed { .. } => 13,
    }
}

/// Scans `queue` from the head for the first message matching `msg_ids`, and
/// returns its position together with the first matching slot of `msg_ids`.
#[verifier::loop_isolation(false)]
fn find_queue_match(queue: &Vec<KernelMessage>, msg_ids: &Vec<u64>) -> (r: Option<(usize, usize)>)
    ensures
        r is None <==> first_match_index(queue@, msg_ids@) == -1,
        r matches Some((qi, k)) ==> {
            &&& qi == first_match_index(queue@, msg_ids@)
            &&& k == first_id_index(msg_ids@, match_key(queue@[qi as int]))
            &&& 0 <= qi < queue@.len()
            &&& 0 <= k < msg_ids@.len()
            &&& msg_ids@[k as int] == match_key(queue@[qi as int])
        },
{
    proof {
        lemma_first_match_props(queue@, msg_ids@);
    }
    let mut qi: usize = 0;
    while qi < queue.len()
        invariant
            qi <= queue@.len(),
            forall|j: int| 0 <= j < qi ==> !matches_ids(msg_ids@, queue@[j]),
        decreases queue@.len() - qi,
    {
        let key: u64 = match &queue[qi] {
            KernelMessage::Interface { .. } => ANY_MESSAGE_SENTINEL,
            KernelMessage::ProcessDestroyed { .. } => ANY_MESSAGE_SENTINEL,
            KernelMessage::Response { message_id, .. } => message_id.0,
        };
        proof {
            assert(key == match_key(queue@[qi as int]));
            lemma_first_id_props(msg_ids@, key);
        }
        let mut k: usize = 0;
        while k < msg_ids.len()
            invariant
                k <= msg_ids@.len(),
                forall|k2: int| 0 <= k2 < k ==> msg_ids@[k2] != key,
            decreases msg_ids@.len() - k,
        {
            if msg_ids[k] == key {
                proof {
                    assert(matches_ids(msg_ids@, queue@[qi as int]));
                    lemma_first_match_props(queue@, msg_ids@);
                    assert(first_match_index(queue@, msg_ids@) == qi);
                    assert(first_id_index(msg_ids@, key) == k);
                }
                return Some((qi, k));
            }
            k += 1;
        }
        proof {
            assert(!matches_ids(msg_ids@, queue@[qi as int]));
        }
        qi += 1;
    }
    proof {
        if first_match_index(queue@, msg_ids@) >= 0 {
            assert(matches_ids(msg_ids@, queue@[first_match_index(queue@, msg_ids@)]));
        }
    }
    None
}

/// Tries to hand the oldest matching message of `queue` to the thread `tid`,
/// which waits as described by `msg_ids`, `msg_ids_ptr`, `out_pointer` and
/// `out_size`. Appends the engine operations this requires to `actions`.
fn deliver_from_queue(
    queue: &mut Vec<KernelMessage>,
    tid: ThreadId,
    msg_ids: &Vec<u64>,
    msg_ids_ptr: u32,
    out_pointer: u32,
    out_size: u32,
    actions: &mut Vec<CoreAction>,
) -> (r: DeliverOutcome)
    requires
        msg_ids@.len() <= MAX_MSG_IDS,
        msg_ids_ptr + 8 * msg_ids@.len() <= u32::MAX,
        forall|i: int| 0 <= i < old(queue)@.len() ==> wf_message(#[trigger] old(queue)@[i]),
    ensures
        forall|i: int| 0 <= i < final(queue)@.len() ==> wf_message(#[trigger] final(queue)@[i]),
        r is NoMatch <==> first_match_index(old(queue)@, msg_ids@) == -1,
        r is NoMatch ==> final(queue)@ == old(queue)@ && final(actions)@ == old(actions)@,
        r matches DeliverOutcome::TooBig { size } ==> {
            let f = first_match_index(old(queue)@, msg_ids@);
            &&& 0 <= f < old(queue)@.len()
            &&& size == encoded_len_of(old(queue)@[f])
            &&& size > out_size
            &&& final(queue)@ == old(queue)@
            &&& final(actions)@.len() == old(actions)@.len() + 1
            &&& final(actions)@.last() matches CoreAction::Resume { tid: t, value } && t == tid
                && value == Some(size as u32)
        },
        r matches DeliverOutcome::Delivered { queue_index, index_in_list } ==> {
            let f = first_match_index(old(queue)@, msg_ids@);
            let m = old(queue)@[f];
            let k = first_id_index(msg_ids@, match_key(m));
            &&& queue_index == f
            &&& index_in_list == k
            &&& encoded_len_of(m) <= out_size
            &&& final(queue)@ == old(queue)@.remove(f)
            &&& final(actions)@.len() == old(actions)@.len() + 3
            &&& (final(actions)@[old(actions)@.len() as int] matches CoreAction::WriteMemory {
                tid: t,
                address,
                data,
            } && t == tid && address == out_pointer && data@ == frame_of(m, k as u32))
            &&& (final(actions)@[old(actions)@.len() as int + 1] matches CoreAction::WriteMemory {
                tid: t,
                address,
                data,
            } && t == tid && address == msg_ids_ptr + 8 * k && data@ == seq![0u8; 8])
            &&& (final(actions)@.last() matches CoreAction::Resume { tid: t, value } && t == tid
                && value == Some(encoded_len_of(m) as u32))
        },
{
    let found = find_queue_match(queue, msg_ids);
    match found {
        None => DeliverOutcome::NoMatch,
        Some((qi, k)) => {
            let size = encoded_len(&queue[qi]);
            proof {
                assert(encoded_len_of(queue@[qi as int]) <= MAX_MESSAGE_BODY + 53);
            }
            if size > out_size as usize {
                actions.push(
                    CoreAction::Resume { tid, value: Some(size as u32) },
                );
                DeliverOutcome::TooBig { size }
            } else {
                let m = queue.remove(qi);
                let frame = encode_kernel_message(&m, k as u32);
                actions.push(CoreAction::WriteMemory { tid, address: out_pointer, data: frame });
                let zeros = make_zeros_8();
                proof {
                    assert(8 * (k as int) <= 8 * msg_ids@.len());
                }
                actions.push(
                    CoreAction::WriteMemory {
                        tid,
                        address: msg_ids_ptr + 8 * (k as u32),
                        data: zeros,
                    },
                );
                actions.push(CoreAction::Resume { tid, value: Some(size as u32) });
                DeliverOutcome::Delivered { queue_index: qi, index_in_list: k }
            }
        },
    }
}

/// Eight zero bytes: what is written over a consumed id slot.
fn make_zeros_8() -> (r: Vec<u8>)
    ensures
        r@ == seq![0u8; 8],
{
    let mut v: Vec<u8> = Vec::new();
    let mut i: usize = 0;
    while i < 8
        invariant
            i <= 8,
            v@ =~= seq![0u8; 8].subrange(0, i as int),
        decreases 8 - i,
    {
        v.push(0);
        proof {
            assert(v@ =~= seq![0u8; 8].subrange(0, i + 1 as int));
        }
        i += 1;
    }
    proof {
        assert(v@ =~= seq![0u8; 8]);
    }
    v
}

/// Looking a live tid up after a push of a fresh thread finds the old record.
proof fn lemma_thread_of_push(pre: Core, post: Core, t: ThreadId)
    requires
        pre.threads_wf(),
        pre.is_live_tid(t),
        post.threads@.len() == pre.threads@.len() + 1,
        post.threads@ == pre.threads@.push(post.threads@.last()),
        post.threads@.last().tid != t,
    ensures
        post.is_live_tid(t),
        post.thread_of(t) == pre.thread_of(t),
{
    let i = choose|i: int| 0 <= i < pre.threads@.len() && pre.threads@[i].tid == t;
    assert(post.threads@[i].tid == t);
    let i1 = pre.thread_index_of(t);
    let i2 = post.thread_index_of(t);
    assert(0 <= i1 < pre.threads@.len() && pre.threads@[i1].tid == t);
    assert(0 <= i2 < post.threads@.len() && post.threads@[i2].tid == t);
    assert(i2 < pre.threads@.len());
    if i1 != i2 {
        assert(pre.threads@[i1].tid != pre.threads@[i2].tid);
    }
}

/// Queueing a handlerless message from a reserved emitter on its registry
/// entry preserves the invariant.
proof fn lemma_queue_other(pre: Core, post: Core, ri: int, is_new: bool, qid: Option<MessageId>)
    requires
        pre.wf(),
        forall|j: int, idx: MessageId|
            qid == Some(idx) && 0 <= j < pre.processes@.len() ==> !(
            #[trigger] pre.processes@[j].messages_to_answer@.contains(idx)),
        forall|i: int, idx: MessageId|
            qid == Some(idx) ==> !(#[trigger] pre.thread_pending_id(i, idx)),
        forall|ii: int, k: int, idx: MessageId|
            qid == Some(idx) ==> !(#[trigger] pre.other_pending_id(ii, k, idx)),
        ({
            let q = if is_new {
                requested_other(post.interfaces@.last().1).last()
            } else {
                requested_other(post.interfaces@[ri].1).last()
            };
            &&& q.message_id == qid
            &&& wf_pending_message(q)
            &&& pre.is_reserved_pid(q.emitter_pid)
            &&& (qid matches Some(id) ==> pre.table_contains(id) && pre.table_emitter(id)
                == q.emitter_pid)
            &&& (if is_new {
                &&& !pre.registry_contains(post.interfaces@.last().0@)
                &&& post.interfaces@.len() == pre.interfaces@.len() + 1
                &&& post.interfaces@ == pre.interfaces@.push(post.interfaces@.last())
                &&& post.interfaces@.last().1 is Requested
                &&& requested_threads(post.interfaces@.last().1).len() == 0
                &&& requested_other(post.interfaces@.last().1).len() == 1
            } else {
                &&& 0 <= ri < pre.interfaces@.len()
                &&& pre.interfaces@[ri].1 is Requested
                &&& post.interfaces@.len() == pre.interfaces@.len()
                &&& post.interfaces@ == pre.interfaces@.update(ri, post.interfaces@[ri])
                &&& post.interfaces@[ri].0@ == pre.interfaces@[ri].0@
                &&& post.interfaces@[ri].1 is Requested
                &&& requested_threads(post.interfaces@[ri].1) == requested_threads(
                    pre.interfaces@[ri].1,
                )
                &&& requested_other(post.interfaces@[ri].1) == requested_other(
                    pre.interfaces@[ri].1,
                ).push(requested_other(post.interfaces@[ri].1).last())
            })
        }),
        post.processes@ == pre.processes@,
        post.threads@ == pre.threads@,
        post.reserved_pids@ == pre.reserved_pids@,
        post.messages_to_answer@ == pre.messages_to_answer@,
    ensures
        post.wf(),
{
    let new_index: int = if is_new {
        pre.interfaces@.len() as int
    } else {
        ri
    };
    if is_new {
        lemma_registry_lookup_push(pre, post);
    } else {
        lemma_registry_lookup_update(pre, post, ri);
    }
    assert(post.pids_wf());
    assert(post.threads_wf());
    assert(post.interfaces_wf()) by {
        assert forall|i: int, k: int|
            0 <= i < post.interfaces@.len() && 0 <= k < requested_threads(
                post.interfaces@[i].1,
            ).len() implies {
            let t = #[trigger] requested_threads(post.interfaces@[i].1)[k];
            &&& post.is_live_tid(t)
            &&& is_emit_pending(post.thread_of(t).state)
            &&& emit_pending_interface(post.thread_of(t).state) == post.interfaces@[i].0@
        } by {
            assert(i != new_index || !is_new);
            let t = requested_threads(pre.interfaces@[i].1)[k];
            assert(pre.is_live_tid(t));
            let j = pre.thread_index_of(t);
            lemma_thread_index_unique(pre, j);
            lemma_thread_index_unique(post, j);
        }
        assert forall|i: int|
            0 <= i < post.threads@.len() && is_emit_pending(
                (#[trigger] post.threads@[i]).state,
            ) implies {
            let h2 = emit_pending_interface(post.threads@[i].state);
            &&& post.registry_contains(h2)
            &&& requested_threads(post.registry_state(h2)).contains(post.threads@[i].tid)
        } by {
            let h2 = emit_pending_interface(pre.threads@[i].state);
            assert(pre.registry_contains(h2));
            assert(requested_threads(pre.registry_state(h2)).contains(pre.threads@[i].tid));
            if is_new {
                assert(h2 != post.interfaces@.last().0@);
                assert(post.registry_state(h2) == pre.registry_state(h2));
            } else {
                if h2 == pre.interfaces@[ri].0@ {
                    lemma_registry_index_unique(pre, ri);
                } else {
                    assert(post.registry_state(h2) == pre.registry_state(h2));
                }
            }
        }
    }
    assert(post.table_wf());
    assert(post.emitted_wf());
    assert(post.owed_wf());
    assert(post.pending_wf()) by {
        let q = if is_new {
            requested_other(post.interfaces@.last().1).last()
        } else {
            requested_other(post.interfaces@[ri].1).last()
        };
        assert forall|ii: int, k: int, id: MessageId|
            #[trigger] post.other_pending_id(ii, k, id) implies (pre.other_pending_id(ii, k, id)
            && requested_other(post.interfaces@[ii].1)[k] == requested_other(
            pre.interfaces@[ii].1,
        )[k]) || (ii == new_index && k == requested_other(post.interfaces@[ii].1).len() - 1
            && q.message_id == Some(id) && requested_other(post.interfaces@[ii].1)[k] == q) by {
            if ii == new_index {
                if is_new {
                    assert(requested_other(post.interfaces@[ii].1).len() == 1);
                } else {
                    if k < requested_other(pre.interfaces@[ii].1).len() {
                        assert(requested_other(post.interfaces@[ii].1)[k] == requested_other(
                            pre.interfaces@[ii].1,
                        )[k]);
                    }
                }
            }
        }
        assert forall|i: int, id: MessageId|
            #[trigger] post.thread_pending_id(i, id) implies post.table_contains(id)
            && post.table_emitter(id) == post.threads@[i].pid && (forall|j: int|
            0 <= j < post.processes@.len()
                ==> !(#[trigger] post.processes@[j]).messages_to_answer@.contains(id)) by {
            assert(pre.thread_pending_id(i, id));
        }
        assert forall|i1: int, i2: int, id: MessageId|
            #[trigger] post.thread_pending_id(i1, id) && #[trigger] post.thread_pending_id(
                i2,
                id,
            ) implies i1 == i2 by {
            assert(pre.thread_pending_id(i1, id));
            assert(pre.thread_pending_id(i2, id));
        }
        assert forall|ii: int, k: int, id: MessageId|
            #[trigger] post.other_pending_id(ii, k, id) implies post.table_contains(id)
            && post.table_emitter(id) == requested_other(post.interfaces@[ii].1)[k].emitter_pid
            && post.is_reserved_pid(requested_other(post.interfaces@[ii].1)[k].emitter_pid) && (
        forall|j: int|
            0 <= j < post.processes@.len()
                ==> !(#[trigger] post.processes@[j]).messages_to_answer@.contains(id)) by {
            if pre.other_pending_id(ii, k, id) && requested_other(post.interfaces@[ii].1)[k]
                == requested_other(pre.interfaces@[ii].1)[k] {
            } else {
                assert(q.message_id == Some(id));
            }
        }
        assert forall|ii1: int, k1: int, ii2: int, k2: int, id: MessageId|
            #[trigger] post.other_pending_id(ii1, k1, id) && #[trigger] post.other_pending_id(
                ii2,
                k2,
                id,
            ) implies ii1 == ii2 && k1 == k2 by {
            if pre.other_pending_id(ii1, k1, id) {
                if pre.other_pending_id(ii2, k2, id) {
                } else {
                    assert(ii2 == new_index && qid == Some(id));
                    assert(!pre.other_pending_id(ii1, k1, id));
                }
            } else {
                assert(ii1 == new_index && k1 == requested_other(
                    post.interfaces@[new_index].1,
                ).len() - 1);
                if pre.other_pending_id(ii2, k2, id) {
                    assert(qid == Some(id));
                    assert(!pre.other_pending_id(ii2, k2, id));
                } else {
                    assert(ii2 == new_index && k2 == requested_other(
                        post.interfaces@[new_index].1,
                    ).len() - 1);
                }
            }
        }
        assert forall|i: int, ii: int, k: int, id: MessageId|
            #[trigger] post.thread_pending_id(i, id) implies !(#[trigger] post.other_pending_id(
            ii,
            k,
            id,
        )) by {
            assert(pre.thread_pending_id(i, id));
            if post.other_pending_id(ii, k, id) {
                if pre.other_pending_id(ii, k, id) {
                } else {
                    assert(q.message_id == Some(id));
                }
            }
        }
    }
    assert(post.queues_wf());
}

impl Core {
    /// Emits a message on behalf of a reserved pid, expecting no answer:
    /// with a live handler the message is queued on it (the driver then
    /// wakes it); with a reserved handler a
    /// [`CoreRunOutcome::ReservedPidInterfaceMessage`] event is surfaced;
    /// with no handler the message waits on the interface entry.
    pub fn emit_interface_message_no_answer(
        &mut self,
        emitter_pid: Pid,
        interface: InterfaceHash,
        message: EncodedMessage,
    )
        requires
            old(self).wf(),
            old(self).is_reserved_pid(emitter_pid),
            message@.len() <= MAX_MESSAGE_BODY,
            old(self).messages_to_answer@.len() < MAX_ID_TABLE,
        ensures
            final(self).wf(),
            final(self).reserved_pids@ == old(self).reserved_pids@,
            final(self).threads@ == old(self).threads@,
            final(self).messages_to_answer@ == old(self).messages_to_answer@,
            old(self).handler_of(interface@) matches Some(hp) ==> (old(self).is_live_pid(hp)
                ==> final(self).proc_of(hp).messages_queue@ == old(self).proc_of(
                hp,
            ).messages_queue@.push(final(self).proc_of(hp).messages_queue@.last()) && (final(self).proc_of(hp).messages_queue@.last() matches KernelMessage::Interface {
                interface: i2,
                message_id: m2,
                emitter_pid: e2,
                actual_data: d2,
            } && i2@ == interface@ && m2 is None && e2 == emitter_pid && d2@ == message@)),
            old(self).handler_of(interface@) is None ==> ({
                let newo = requested_other(final(self).registry_state(interface@));
                &&& final(self).registry_contains(interface@)
                &&& final(self).registry_state(interface@) is Requested
                &&& requested_threads(final(self).registry_state(interface@)) == (if old(self).registry_contains(interface@) {
                    requested_threads(old(self).registry_state(interface@))
                } else {
                    Seq::<ThreadId>::empty()
                })
                &&& newo.len() == (if old(self).registry_contains(interface@) {
                    requested_other(old(self).registry_state(interface@)).len() as int + 1
                } else {
                    1int
                })
                &&& (old(self).registry_contains(interface@) ==> newo.subrange(0, newo.len() - 1)
                    == requested_other(old(self).registry_state(interface@)))
                &&& newo.last().emitter_pid == emitter_pid
                &&& newo.last().message_id is None
                &&& newo.last().message@ == message@
            }),
    {
        let _ = self.emit_reserved_inner(emitter_pid, interface, message, false);
    }

    /// Emits a message on behalf of a reserved pid and allocates a message
    /// id for the answer, which will come back as a
    /// [`CoreRunOutcome::MessageResponse`] event. Otherwise as
    /// [`Core::emit_interface_message_no_answer`].
    pub fn emit_interface_message_answer(
        &mut self,
        emitter_pid: Pid,
        interface: InterfaceHash,
        message: EncodedMessage,
    ) -> (r: MessageId)
        requires
            old(self).wf(),
            old(self).is_reserved_pid(emitter_pid),
            message@.len() <= MAX_MESSAGE_BODY,
            old(self).messages_to_answer@.len() < MAX_ID_TABLE,
        ensures
            final(self).wf(),
            final(self).reserved_pids@ == old(self).reserved_pids@,
            final(self).threads@ == old(self).threads@,
            r.0 >= 2,
            !old(self).table_contains(r),
            final(self).table_contains(r),
            final(self).table_emitter(r) == emitter_pid,
            final(self).messages_to_answer@ == old(self).messages_to_answer@.push(
                (r, emitter_pid),
            ),
            old(self).handler_of(interface@) is None ==> ({
                let newo = requested_other(final(self).registry_state(interface@));
                &&& final(self).registry_contains(interface@)
                &&& final(self).registry_state(interface@) is Requested
                &&& requested_threads(final(self).registry_state(interface@)) == (if old(self).registry_contains(interface@) {
                    requested_threads(old(self).registry_state(interface@))
                } else {
                    Seq::<ThreadId>::empty()
                })
                &&& newo.len() == (if old(self).registry_contains(interface@) {
                    requested_other(old(self).registry_state(interface@)).len() as int + 1
                } else {
                    1int
                })
                &&& (old(self).registry_contains(interface@) ==> newo.subrange(0, newo.len() - 1)
                    == requested_other(old(self).registry_state(interface@)))
                &&& newo.last().emitter_pid == emitter_pid
                &&& newo.last().message_id == Some(r)
                &&& newo.last().message@ == message@
            }),
    {
        match self.emit_reserved_inner(emitter_pid, interface, message, true) {
            Some(id) => id,
            None => {
                proof {
                    assert(false);
                }
                MessageId(0)
            },
        }
    }

    /// Shared path of the reserved-pid emissions.
    #[verifier::rlimit(100)]
    #[verifier::spinoff_prover]
    fn emit_reserved_inner(
        &mut self,
        emitter_pid: Pid,
        interface: InterfaceHash,
        message: EncodedMessage,
        needs_answer: bool,
    ) -> (r: Option<MessageId>)
        requires
            old(self).wf(),
            old(self).is_reserved_pid(emitter_pid),
            message@.len() <= MAX_MESSAGE_BODY,
            old(self).messages_to_answer@.len() < MAX_ID_TABLE,
        ensures
            final(self).wf(),
            final(self).reserved_pids@ == old(self).reserved_pids@,
            final(self).threads@ == old(self).threads@,
            r is Some <==> needs_answer,
            needs_answer ==> (r matches Some(id) && id.0 >= 2 && !old(self).table_contains(id)
                && final(self).table_contains(id) && final(self).table_emitter(id) == emitter_pid
                && final(self).messages_to_answer@ == old(self).messages_to_answer@.push(
                (id, emitter_pid),
            )),
            !needs_answer ==> final(self).messages_to_answer@ == old(self).messages_to_answer@,
            old(self).handler_of(interface@) matches Some(hp) ==> (old(self).is_live_pid(hp)
                ==> final(self).proc_of(hp).messages_queue@ == old(self).proc_of(
                hp,
            ).messages_queue@.push(final(self).proc_of(hp).messages_queue@.last()) && (final(self).proc_of(hp).messages_queue@.last() matches KernelMessage::Interface {
                interface: i2,
                message_id: m2,
                emitter_pid: e2,
                actual_data: d2,
            } && i2@ == interface@ && m2 == r && e2 == emitter_pid && d2@ == message@)),
            old(self).handler_of(interface@) is None ==> ({
                let newo = requested_other(final(self).registry_state(interface@));
                &&& final(self).registry_contains(interface@)
                &&& final(self).registry_state(interface@) is Requested
                &&& requested_threads(final(self).registry_state(interface@)) == (if old(self).registry_contains(interface@) {
                    requested_threads(old(self).registry_state(interface@))
                } else {
                    Seq::<ThreadId>::empty()
                })
                &&& newo.len() == (if old(self).registry_contains(interface@) {
                    requested_other(old(self).registry_state(interface@)).len() as int + 1
                } else {
                    1int
                })
                &&& (old(self).registry_contains(interface@) ==> newo.subrange(0, newo.len() - 1)
                    == requested_other(old(self).registry_state(interface@)))
                &&& newo.last().emitter_pid == emitter_pid
                &&& newo.last().message_id == r
                &&& newo.last().message@ == message@
            }),
    {
        let mid: Option<MessageId> = if needs_answer {
            let ghost s0 = *self;
            let id = self.alloc_message_id();
            proof {
                lemma_fresh_not_referenced(s0, id);
            }
            let ghost s1 = *self;
            self.messages_to_answer.push((id, emitter_pid));
            proof {
                lemma_wf_same_tables(s0, s1);
                lemma_table_push_lookup(s1, *self, id, emitter_pid);
                lemma_register_reserved(s1, *self, emitter_pid, id);
            }
            Some(id)
        } else {
            None
        };
        let ghost s2 = *self;
        let ridx = self.find_interface_index(&interface);
        let handler: Option<Pid> = match ridx {
            Some(ri) => match &self.interfaces[ri].1 {
                InterfaceState::Process(hp) => Some(*hp),
                InterfaceState::Requested { .. } => None,
            },
            None => None,
        };
        proof {
            if self.registry_contains(interface@) {
                lemma_registry_index_unique(*self, self.registry_index_of(interface@));
            }
            assert(self.handler_of(interface@) == old(self).handler_of(interface@));
        }
        match handler {
            Some(hp) => {
                if pid_in_vec(&self.reserved_pids, hp) {
                    let ghost s3 = *self;
                    self.pending_events.push(
                        CoreRunOutcome::ReservedPidInterfaceMessage {
                            pid: emitter_pid,
                            message_id: mid,
                            interface,
                            message,
                        },
                    );
                    proof {
                        lemma_wf_same_tables(s3, *self);
                    }
                } else {
                    proof {
                        assert(s2.is_live_pid(hp) || s2.is_reserved_pid(hp)) by {
                            lemma_registry_index_unique(s2, s2.registry_index_of(interface@));
                        }
                    }
                    let hpi = match self.find_process_index(hp) {
                        Some(i) => i,
                        None => {
                            proof {
                                assert(false);
                            }
                            0
                        },
                    };
                    proof {
                        lemma_proc_index_unique(*self, hpi as int);
                    }
                    let ghost s4 = *self;
                    let mut hproc = self.processes.remove(hpi);
                    hproc.messages_queue.push(
                        KernelMessage::Interface {
                            interface,
                            message_id: mid,
                            emitter_pid,
                            actual_data: message,
                        },
                    );
                    match mid {
                        Some(id) => {
                            hproc.messages_to_answer.push(id);
                        },
                        None => {},
                    }
                    self.processes.insert(hpi, hproc);
                    proof {
                        assert(self.processes@ =~= s4.processes@.update(
                            hpi as int,
                            self.processes@[hpi as int],
                        ));
                        assert forall|k: int|
                            0 <= k
                                < self.processes@[hpi as int].messages_queue@.len() implies wf_message(
                            #[trigger] self.processes@[hpi as int].messages_queue@[k],
                        ) by {
                            if k < s4.processes@[hpi as int].messages_queue@.len() {
                                assert(self.processes@[hpi as int].messages_queue@[k]
                                    == s4.processes@[hpi as int].messages_queue@[k]);
                                assert(wf_message(s4.processes@[hpi as int].messages_queue@[k]));
                            }
                        }
                        match mid {
                            Some(id) => {
                                assert forall|j: int|
                                    0 <= j < s4.processes@.len() implies !(
                                #[trigger] s4.processes@[j]).messages_to_answer@.contains(id) by {
                                    assert(!old(self).processes@[j].messages_to_answer@.contains(
                                        id,
                                    ));
                                }
                                assert forall|i: int| !(#[trigger] s4.thread_pending_id(
                                    i,
                                    id,
                                )) by {
                                    if s4.thread_pending_id(i, id) {
                                        assert(old(self).thread_pending_id(i, id));
                                    }
                                }
                                assert forall|ii: int, k: int| !(#[trigger] s4.other_pending_id(
                                    ii,
                                    k,
                                    id,
                                )) by {
                                    if s4.other_pending_id(ii, k, id) {
                                        assert(old(self).other_pending_id(ii, k, id));
                                    }
                                }
                                lemma_enqueue_with_owed(s4, *self, hpi as int, id);
                            },
                            None => {
                                lemma_update_process_queue(s4, *self, hpi as int);
                            },
                        }
                        lemma_proc_index_unique(*self, hpi as int);
                        if old(self).is_live_pid(hp) {
                            let pix = old(self).proc_index_of(hp);
                            lemma_proc_index_unique(*old(self), pix);
                            lemma_proc_index_unique(s4, pix);
                            lemma_proc_index_unique(*self, pix);
                        }
                    }
                }
            },
            None => {
                // No handler: queue the message on the interface entry.
                let q = QueuedPendingMessage { emitter_pid, message_id: mid, message };
                match ridx {
                    Some(ri) => {
                        let ghost s5 = *self;
                        let (key, st) = self.interfaces.remove(ri);
                        let new_st = match st {
                            InterfaceState::Requested { threads, mut other } => {
                                other.push(q);
                                InterfaceState::Requested { threads, other }
                            },
                            InterfaceState::Process(_) => {
                                proof {
                                    assert(false);
                                }
                                InterfaceState::Process(Pid(0))
                            },
                        };
                        self.interfaces.insert(ri, (key, new_st));
                        proof {
                            assert(self.interfaces@ =~= s5.interfaces@.update(
                                ri as int,
                                self.interfaces@[ri as int],
                            ));
                            assert(requested_other(self.interfaces@[ri as int].1)
                                =~= requested_other(s5.interfaces@[ri as int].1).push(
                                requested_other(self.interfaces@[ri as int].1).last(),
                            ));
                            match mid {
                                Some(id) => {
                                    assert forall|j: int|
                                        0 <= j < s5.processes@.len() implies !(
                                    #[trigger] s5.processes@[j]).messages_to_answer@.contains(
                                        id,
                                    ) by {
                                        assert(!old(self).processes@[j].messages_to_answer@.contains(
                                            id,
                                        ));
                                    }
                                    assert forall|i: int| !(#[trigger] s5.thread_pending_id(
                                        i,
                                        id,
                                    )) by {
                                        if s5.thread_pending_id(i, id) {
                                            assert(old(self).thread_pending_id(i, id));
                                        }
                                    }
                                    assert forall|ii2: int, k: int| !(
                                    #[trigger] s5.other_pending_id(ii2, k, id)) by {
                                        if s5.other_pending_id(ii2, k, id) {
                                            assert(old(self).other_pending_id(ii2, k, id));
                                        }
                                    }
                                },
                                None => {},
                            }
                            lemma_queue_other(s5, *self, ri as int, false, mid);
                            lemma_registry_lookup_update(s5, *self, ri as int);
                            assert(requested_other(self.registry_state(interface@)).subrange(
                                0,
                                requested_other(self.registry_state(interface@)).len() - 1,
                            ) =~= requested_other(s5.registry_state(interface@)));
                        }
                    },
                    None => {
                        let ghost s6 = *self;
                        let mut other: Vec<QueuedPendingMessage> = Vec::new();
                        other.push(q);
                        self.interfaces.push(
                            (interface, InterfaceState::Requested { threads: Vec::new(), other }),
                        );
                        proof {
                            assert(self.interfaces@ =~= s6.interfaces@.push(
                                self.interfaces@.last(),
                            ));
                            match mid {
                                Some(id) => {
                                    assert forall|j: int|
                                        0 <= j < s6.processes@.len() implies !(
                                    #[trigger] s6.processes@[j]).messages_to_answer@.contains(
                                        id,
                                    ) by {
                                        assert(!old(self).processes@[j].messages_to_answer@.contains(
                                            id,
                                        ));
                                    }
                                    assert forall|i: int| !(#[trigger] s6.thread_pending_id(
                                        i,
                                        id,
                                    )) by {
                                        if s6.thread_pending_id(i, id) {
                                            assert(old(self).thread_pending_id(i, id));
                                        }
                                    }
                                    assert forall|ii2: int, k: int| !(
                                    #[trigger] s6.other_pending_id(ii2, k, id)) by {
                                        if s6.other_pending_id(ii2, k, id) {
                                            assert(old(self).other_pending_id(ii2, k, id));
                                        }
                                    }
                                },
                                None => {},
                            }
                            lemma_queue_other(s6, *self, 0, true, mid);
                            lemma_registry_lookup_push(s6, *self);
                        }
                    },
                }
            },
        }
        proof {
            match mid {
                Some(id) => {
                    assert(self.messages_to_answer@ == old(self).messages_to_answer@.push(
                        (id, emitter_pid),
                    ));
                    lemma_table_index_unique(*self, old(self).messages_to_answer@.len() as int);
                },
                None => {},
            }
        }
        mid
    }
}

/// Entering a fresh id for a reserved emitter into the table preserves the
/// invariant: reserved pids keep no emitted list.
proof fn lemma_register_reserved(pre: Core, post: Core, emitter: Pid, id: MessageId)
    requires
        pre.wf(),
        id.0 >= 2,
        !pre.table_contains(id),
        pre.is_reserved_pid(emitter),
        post.messages_to_answer@ == pre.messages_to_answer@.push((id, emitter)),
        post.processes@ == pre.processes@,
        post.threads@ == pre.threads@,
        post.interfaces@ == pre.interfaces@,
        post.reserved_pids@ == pre.reserved_pids@,
    ensures
        post.wf(),
        post.table_contains(id),
        post.table_emitter(id) == emitter,
{
    lemma_table_push_lookup(pre, post, id, emitter);
    let n = pre.messages_to_answer@.len() as int;
    assert(post.pids_wf());
    assert(post.threads_wf());
    assert(post.interfaces_wf()) by {
        assert forall|i: int, k: int|
            0 <= i < post.interfaces@.len() && 0 <= k < requested_threads(
                post.interfaces@[i].1,
            ).len() implies {
            let t = #[trigger] requested_threads(post.interfaces@[i].1)[k];
            &&& post.is_live_tid(t)
            &&& is_emit_pending(post.thread_of(t).state)
            &&& emit_pending_interface(post.thread_of(t).state) == post.interfaces@[i].0@
        } by {
            let t = requested_threads(pre.interfaces@[i].1)[k];
            assert(pre.is_live_tid(t));
        }
    }
    assert(post.table_wf()) by {
        assert forall|i: int, j: int|
            0 <= i < j < post.messages_to_answer@.len() implies post.messages_to_answer@[i].0
                != post.messages_to_answer@[j].0 by {
            if j < n {
            } else {
                assert(post.messages_to_answer@[j].0 == id);
                if post.messages_to_answer@[i].0 == id {
                    assert(pre.messages_to_answer@[i].0 == id);
                    assert(pre.table_contains(id));
                }
            }
        }
    }
    assert(post.emitted_wf()) by {
        assert forall|j: int|
            0 <= j < post.messages_to_answer@.len() && post.is_live_pid(
                (#[trigger] post.messages_to_answer@[j]).1,
            ) implies post.proc_of(post.messages_to_answer@[j].1).emitted_messages@.contains(
            post.messages_to_answer@[j].0,
        ) by {
            if j < n {
                assert(pre.messages_to_answer@[j] == post.messages_to_answer@[j]);
            } else {
                assert(post.messages_to_answer@[j].1 == emitter);
                if post.is_live_pid(emitter) {
                    let i = choose|i: int|
                        0 <= i < post.processes@.len() && post.processes@[i].pid == emitter;
                    assert(pre.processes@[i].pid == emitter);
                    assert(!pre.reserved_pids@.contains(pre.processes@[i].pid));
                }
            }
        }
    }
    assert(post.owed_wf());
    assert(post.pending_wf()) by {
        assert forall|i: int, id2: MessageId|
            #[trigger] post.thread_pending_id(i, id2) implies post.table_contains(id2)
            && post.table_emitter(id2) == post.threads@[i].pid && (forall|j: int|
            0 <= j < post.processes@.len()
                ==> !(#[trigger] post.processes@[j]).messages_to_answer@.contains(id2)) by {
            assert(pre.thread_pending_id(i, id2));
        }
        assert forall|i1: int, i2: int, id2: MessageId|
            #[trigger] post.thread_pending_id(i1, id2) && #[trigger] post.thread_pending_id(
                i2,
                id2,
            ) implies i1 == i2 by {
            assert(pre.thread_pending_id(i1, id2));
            assert(pre.thread_pending_id(i2, id2));
        }
        assert forall|ii: int, k: int, id2: MessageId|
            #[trigger] post.other_pending_id(ii, k, id2) implies post.table_contains(id2)
            && post.table_emitter(id2) == requested_other(post.interfaces@[ii].1)[k].emitter_pid
            && post.is_reserved_pid(requested_other(post.interfaces@[ii].1)[k].emitter_pid) && (
        forall|j: int|
            0 <= j < post.processes@.len()
                ==> !(#[trigger] post.processes@[j]).messages_to_answer@.contains(id2)) by {
            assert(pre.other_pending_id(ii, k, id2));
        }
        assert forall|ii1: int, k1: int, ii2: int, k2: int, id2: MessageId|
            #[trigger] post.other_pending_id(ii1, k1, id2) && #[trigger] post.other_pending_id(
                ii2,
                k2,
                id2,
            ) implies ii1 == ii2 && k1 == k2 by {
            assert(pre.other_pending_id(ii1, k1, id2));
            assert(pre.other_pending_id(ii2, k2, id2));
        }
        assert forall|i: int, ii: int, k: int, id2: MessageId|
            #[trigger] post.thread_pending_id(i, id2) implies !(#[trigger] post.other_pending_id(
            ii,
            k,
            id2,
        )) by {
            assert(pre.thread_pending_id(i, id2));
            if post.other_pending_id(ii, k, id2) {
                assert(pre.other_pending_id(ii, k, id2));
            }
        }
    }
    assert(post.queues_wf());
}

/// Pushing a fresh runnable thread for a live process preserves the
/// invariant.
proof fn lemma_push_thread(pre: Core, post: Core, tid: ThreadId)
    requires
        pre.wf(),
        tid.0 >= 2 && !pre.is_live_tid(tid),
        post.threads@.len() == pre.threads@.len() + 1,
        post.threads@ == pre.threads@.push(post.threads@.last()),
        post.threads@.last().tid == tid,
        post.threads@.last().state is Runnable,
        pre.is_live_pid(post.threads@.last().pid),
        post.processes@ == pre.processes@,
        post.interfaces@ == pre.interfaces@,
        post.reserved_pids@ == pre.reserved_pids@,
        post.messages_to_answer@ == pre.messages_to_answer@,
    ensures
        post.wf(),
{
    assert(post.pids_wf());
    assert(post.threads_wf()) by {
        assert forall|i: int|
            0 <= i < post.threads@.len() implies post.is_live_pid(
            (#[trigger] post.threads@[i]).pid,
        ) && post.threads@[i].tid.0 >= 2 && wf_thread_state(post.threads@[i].state) by {
            if i < pre.threads@.len() {
                assert(post.threads@[i] == pre.threads@[i]);
                assert(pre.is_live_pid(pre.threads@[i].pid));
            }
        }
    }
    assert(post.interfaces_wf()) by {
        assert forall|i: int, k: int|
            0 <= i < post.interfaces@.len() && 0 <= k < requested_threads(
                post.interfaces@[i].1,
            ).len() implies {
            let t = #[trigger] requested_threads(post.interfaces@[i].1)[k];
            &&& post.is_live_tid(t)
            &&& is_emit_pending(post.thread_of(t).state)
            &&& emit_pending_interface(post.thread_of(t).state) == post.interfaces@[i].0@
        } by {
            let t = requested_threads(pre.interfaces@[i].1)[k];
            assert(pre.is_live_tid(t));
            lemma_thread_of_push(pre, post, t);
        }
        assert forall|i: int|
            0 <= i < post.threads@.len() && is_emit_pending(
                (#[trigger] post.threads@[i]).state,
            ) implies {
            let h = emit_pending_interface(post.threads@[i].state);
            &&& post.registry_contains(h)
            &&& requested_threads(post.registry_state(h)).contains(post.threads@[i].tid)
        } by {
            if i < pre.threads@.len() {
                assert(post.threads@[i] == pre.threads@[i]);
            }
        }
    }
    assert(post.table_wf());
    assert(post.emitted_wf());
    assert(post.owed_wf());
    assert(post.pending_wf()) by {
        assert forall|i: int|
            0 <= i < post.threads@.len() && is_emit_pending(
                (#[trigger] post.threads@[i]).state,
            ) implies 0 <= i < pre.threads@.len() && post.threads@[i] == pre.threads@[i] by {
            if i == pre.threads@.len() {
                assert(post.threads@[i].state is Runnable);
            }
        }
        lemma_pending_wf_preserved(pre, post);
    }
    assert(post.queues_wf());
}

impl Core {
    /// Adds a thread to the live process `pid`, paused at the function the
    /// caller will start in the engine. This is how the kernel-internal
    /// `threads` interface creates threads in the emitter's process.
    pub fn start_thread(&mut self, pid: Pid) -> (r: Option<ThreadId>)
        requires
            old(self).wf(),
            old(self).threads@.len() < MAX_ID_TABLE,
        ensures
            final(self).wf(),
            r is Some <==> old(self).is_live_pid(pid),
            r is None ==> final(self).threads@ == old(self).threads@,
            r matches Some(tid) ==> {
                &&& tid.0 >= 2
                &&& !old(self).is_live_tid(tid)
                &&& final(self).threads@ == old(self).threads@.push(final(self).threads@.last())
                &&& final(self).threads@.last().tid == tid
                &&& final(self).threads@.last().pid == pid
                &&& final(self).threads@.last().state is Runnable
            },
            final(self).processes@ == old(self).processes@,
            final(self).interfaces@ == old(self).interfaces@,
            final(self).reserved_pids@ == old(self).reserved_pids@,
            final(self).messages_to_answer@ == old(self).messages_to_answer@,
            final(self).pending_events@ == old(self).pending_events@,
    {
        match self.find_process_index(pid) {
            None => None,
            Some(_) => {
                let ghost pre = *self;
                let mut tids: Vec<u64> = Vec::new();
                let mut i: usize = 0;
                while i < self.threads.len()
                    invariant
                        i <= self.threads@.len(),
                        tids@.len() == i,
                        forall|j: int| 0 <= j < i ==> tids@[j] == self.threads@[j].tid.0,
                    decreases self.threads@.len() - i,
                {
                    tids.push(self.threads[i].tid.0);
                    i += 1;
                }
                let tid = ThreadId(fresh_id(&mut self.id_pool, &tids));
                proof {
                    assert forall|k: int|
                        0 <= k < self.threads@.len() implies self.threads@[k].tid != tid by {
                        assert(tids@[k] == self.threads@[k].tid.0);
                    }
                }
                self.threads.push(Thread { tid, pid, state: ThreadState::Runnable });
                proof {
                    lemma_push_thread(pre, *self, tid);
                }
                Some(tid)
            },
        }
    }

    /// Kills the process immediately: the cleanup and the report are those
    /// of [`Core::process_finished`], ending in the
    /// [`CoreRunOutcome::ProgramFinished`] event that carries the trap
    /// outcome to the run loop.
    pub fn abort(&mut self, pid: Pid) -> (woken: Vec<Pid>)
        requires
            old(self).wf(),
            old(self).is_live_pid(pid),
        ensures
            final(self).wf(),
            !final(self).is_live_pid(pid),
            forall|i: int|
                0 <= i < final(self).threads@.len() ==> (#[trigger] final(self).threads@[i]).pid
                    != pid,
            forall|j: int|
                0 <= j < final(self).messages_to_answer@.len() ==> (#[trigger] final(self).messages_to_answer@[j]).1 != pid,
            forall|k: int|
                0 <= k < old(self).proc_of(pid).emitted_messages@.len() ==> !final(self).table_contains(#[trigger] old(self).proc_of(pid).emitted_messages@[k]),
            forall|k: int|
                0 <= k < old(self).proc_of(pid).messages_to_answer@.len() ==> !final(self).table_contains(#[trigger] old(self).proc_of(pid).messages_to_answer@[k]),
            forall|i: int|
                0 <= i < final(self).interfaces@.len() ==> !((#[trigger] final(self).interfaces@[i]).1 == InterfaceState::Process(pid)),
            final(self).pending_events@.len() >= old(self).pending_events@.len() + 1,
            (final(self).pending_events@.last() matches CoreRunOutcome::ProgramFinished {
                pid: p2,
                unhandled_messages,
                cancelled_messages,
                ..
            } && p2 == pid && unhandled_messages@ == old(self).proc_of(pid).messages_to_answer@
                && cancelled_messages@ == old(self).proc_of(pid).emitted_messages@),
    {
        self.process_finished(pid)
    }
}

/// Identifier uniqueness: in a well-formed core no two live processes,
/// threads or outstanding messages share an identifier, and the values `0`
/// and `1` are never assigned.
pub proof fn lemma_live_ids_unique(c: Core)
    requires
        c.wf(),
    ensures
        forall|i: int, j: int|
            0 <= i < j < c.processes@.len() ==> c.processes@[i].pid != c.processes@[j].pid,
        forall|i: int, j: int|
            0 <= i < j < c.threads@.len() ==> c.threads@[i].tid != c.threads@[j].tid,
        forall|i: int, j: int|
            0 <= i < j < c.messages_to_answer@.len() ==> c.messages_to_answer@[i].0
                != c.messages_to_answer@[j].0,
        forall|i: int| 0 <= i < c.processes@.len() ==> (#[trigger] c.processes@[i]).pid.0 >= 2,
        forall|i: int| 0 <= i < c.threads@.len() ==> (#[trigger] c.threads@[i]).tid.0 >= 2,
        forall|i: int|
            0 <= i < c.messages_to_answer@.len() ==> (#[trigger] c.messages_to_answer@[i]).0.0
                >= 2,
{
}

/// Registry exclusivity: in a well-formed core every interface hash has at
/// most one registry entry, so at most one handler.
pub proof fn lemma_registry_exclusive(c: Core, i: int, j: int)
    requires
        c.wf(),
        0 <= i < c.interfaces@.len(),
        0 <= j < c.interfaces@.len(),
        c.interfaces@[i].0@ == c.interfaces@[j].0@,
    ensures
        i == j,
{
    if i < j {
        assert(c.interfaces@[i].0@ != c.interfaces@[j].0@);
    }
    if j < i {
        assert(c.interfaces@[j].0@ != c.interfaces@[i].0@);
    }
}

/// Response bookkeeping: in a well-formed core, every message a live
/// process has emitted is outstanding in the response table under that
/// process, and conversely every outstanding message of a live emitter is
/// recorded by it. Together with the cleanup contract of
/// [`Core::process_finished`] and the removal contract of
/// [`Core::answer_message`] and [`Core::cancel_message`], each outstanding
/// response is resolved exactly once: answered, refused, cancelled, or
/// failed by the death of one of the two parties.
pub proof fn lemma_outstanding_recorded(c: Core, id: MessageId)
    requires
        c.wf(),
        c.table_contains(id),
        c.is_live_pid(c.table_emitter(id)),
    ensures
        c.proc_of(c.table_emitter(id)).emitted_messages@.contains(id),
{
    let j = choose|j: int|
        0 <= j < c.messages_to_answer@.len() && c.messages_to_answer@[j].0 == id;
    lemma_table_index_unique(c, j);
}

} // verus!