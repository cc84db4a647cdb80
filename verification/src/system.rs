//! The orchestrator above the core: it owns the reserved pids that host the
//! kernel-internal handlers, tracks the handler of the program loader, and
//! turns core events into decisions. The engine loop, the native programs'
//! polling and the module instantiation live with the embedder, which feeds
//! events in and carries actions out.

use vstd::prelude::*;

use crate::ids::{EncodedMessage, InterfaceHash, MessageId, Pid, ThreadId};
use crate::ipc::{Core, CoreBuilder, CoreRunOutcome, KernelMessage, MAX_ID_TABLE};

verus! {

/// Hash identifying a program to load.
#[derive(Debug, Clone, Copy)]
pub struct ModuleHash(pub [u8; 32]);

impl View for ModuleHash {
    type V = Seq<u8>;

    open spec fn view(&self) -> Seq<u8> {
        self.0@
    }
}

/// Outcome of handling one core event at the system level.
#[derive(Debug)]
pub enum SystemRunOutcome {
    /// A program ended; the driver tears its engine instance down.
    ProgramFinished {
        /// The process that ended.
        pid: Pid,
    },
    /// A loader response delivered program bytes: a process was created for
    /// them and the driver instantiates the module under its ids.
    ProgramLoaded {
        /// The new process.
        pid: Pid,
        /// Its main thread.
        tid: ThreadId,
        /// The module bytes the loader returned.
        bytes: EncodedMessage,
    },
    /// A message for the native programs; the driver dispatches it.
    NativeInterfaceMessage {
        /// The emitter.
        pid: Pid,
        /// Id to answer, if an answer is expected.
        message_id: Option<MessageId>,
        /// The interface it was emitted on.
        interface: InterfaceHash,
        /// The message body.
        message: EncodedMessage,
    },
    /// A response to a message emitted by a native program.
    NativeResponse {
        /// The answered message.
        message_id: MessageId,
        /// The response body.
        response: Result<EncodedMessage, ()>,
    },
    /// Nothing to report.
    Idle,
}

/// The registration request understood on the `interface` interface: a zero
/// tag byte followed by the 32 bytes of the interface hash.
pub open spec fn is_register_request(b: Seq<u8>) -> bool {
    b.len() == 33 && b[0] == 0
}

/// Decodes a registration request.
pub fn parse_register_request(message: &EncodedMessage) -> (r: Result<InterfaceHash, ()>)
    ensures
        r is Ok <==> is_register_request(message@),
        r matches Ok(h) ==> h@ == message@.subrange(1, 33),
{
    if message.0.len() != 33 {
        return Err(());
    }
    if message.0[0] != 0 {
        return Err(());
    }
    let mut hash = [0u8; 32];
    let mut i: usize = 0;
    while i < 32
        invariant
            i <= 32,
            message@.len() == 33,
            hash@.len() == 32,
            forall|j: int| 0 <= j < i ==> hash@[j] == message@[1 + j],
        decreases 32 - i,
    {
        hash[i] = message.0[1 + i];
        i += 1;
    }
    proof {
        assert(hash@ =~= message@.subrange(1, 33));
    }
    Ok(InterfaceHash(hash))
}

/// The system: the core plus the loader integration state.
pub struct System {
    /// The IPC core.
    pub core: Core,
    /// Reserved pid handling the `interface` interface.
    pub interface_interface_pid: Pid,
    /// Reserved pid on whose behalf loader requests are emitted.
    pub load_source_virtual_pid: Pid,
    /// Hash of the `interface` interface.
    pub interface_interface_hash: InterfaceHash,
    /// Hash of the `loader` interface.
    pub loader_hash: InterfaceHash,
    /// Pid of the loader handler, or `0` while none registered.
    pub loader_pid: u64,
    /// Program hashes waiting for a loader.
    pub programs_to_load: Vec<ModuleHash>,
    /// Loader requests awaiting their response.
    pub loading_programs: Vec<MessageId>,
}

/// Prototype for a [`System`].
pub struct SystemBuilder {
    /// Builder for the core.
    pub core: CoreBuilder,
    /// Reserved pid handling the `interface` interface.
    pub interface_interface_pid: Pid,
    /// Reserved pid on whose behalf loader requests are emitted.
    pub load_source_virtual_pid: Pid,
    /// Hash of the `interface` interface.
    pub interface_interface_hash: InterfaceHash,
    /// Hash of the `loader` interface.
    pub loader_hash: InterfaceHash,
    /// Program hashes to load once a loader registers.
    pub programs_to_load: Vec<ModuleHash>,
}

impl SystemBuilder {
    /// The builder's reserved pids were drawn from its own core builder.
    pub open spec fn wf(self) -> bool {
        &&& self.core.wf()
        &&& self.core.reserved_pids@.contains(self.interface_interface_pid)
        &&& self.core.reserved_pids@.contains(self.load_source_virtual_pid)
    }

    /// Starts a new builder; the two interface hashes name the registration
    /// protocol and the loader protocol of this deployment.
    pub fn new(interface_interface_hash: InterfaceHash, loader_hash: InterfaceHash) -> (r:
        SystemBuilder)
        ensures
            r.wf(),
            r.programs_to_load@.len() == 0,
            r.interface_interface_hash@ == interface_interface_hash@,
            r.loader_hash@ == loader_hash@,
    {
        let mut core = Core::new();
        let interface_interface_pid = core.reserve_pid();
        let ghost mid = core;
        let load_source_virtual_pid = core.reserve_pid();
        proof {
            assert(core.reserved_pids@ == mid.reserved_pids@.push(load_source_virtual_pid));
            assert(mid.reserved_pids@.last() == interface_interface_pid);
            assert(core.reserved_pids@[mid.reserved_pids@.len() - 1] == interface_interface_pid);
            assert(core.reserved_pids@.contains(interface_interface_pid));
            assert(core.reserved_pids@[core.reserved_pids@.len() - 1] == load_source_virtual_pid);
            assert(core.reserved_pids@.contains(load_source_virtual_pid));
        }
        SystemBuilder {
            core,
            interface_interface_pid,
            load_source_virtual_pid,
            interface_interface_hash,
            loader_hash,
            programs_to_load: Vec::new(),
        }
    }

    /// Adds a program that the system loads through the `loader` interface
    /// as soon as a loader registers. Requests keep the order of these
    /// calls.
    pub fn with_main_program(&mut self, hash: ModuleHash)
        ensures
            final(self).programs_to_load@ == old(self).programs_to_load@.push(hash),
            final(self).core == old(self).core,
            final(self).interface_interface_pid == old(self).interface_interface_pid,
            final(self).load_source_virtual_pid == old(self).load_source_virtual_pid,
            final(self).interface_interface_hash == old(self).interface_interface_hash,
            final(self).loader_hash == old(self).loader_hash,
            old(self).wf() ==> final(self).wf(),
    {
        self.programs_to_load.push(hash);
    }

    /// Builds the [`System`]: the core starts with the `interface`
    /// interface already routed to the system's reserved pid.
    pub fn build(self) -> (r: System)
        requires
            self.wf(),
        ensures
            r.wf(),
            r.core.handler_of(self.interface_interface_hash@) == Some(
                self.interface_interface_pid,
            ),
            r.loader_pid == 0,
            r.programs_to_load@ == self.programs_to_load@,
            r.loading_programs@.len() == 0,
            r.interface_interface_pid == self.interface_interface_pid,
            r.load_source_virtual_pid == self.load_source_virtual_pid,
            r.interface_interface_hash == self.interface_interface_hash,
            r.loader_hash == self.loader_hash,
    {
        let mut core = self.core.build();
        proof {
            assert(!core.registry_contains(self.interface_interface_hash@)) by {
                if core.registry_contains(self.interface_interface_hash@) {
                    let i = choose|i: int|
                        0 <= i < core.interfaces@.len() && core.interfaces@[i].0@
                            == self.interface_interface_hash@;
                }
            }
            assert(core.is_reserved_pid(self.interface_interface_pid));
            assert(core.is_reserved_pid(self.load_source_virtual_pid));
        }
        let (res, _actions) = core.set_interface_handler(
            self.interface_interface_hash.clone(),
            self.interface_interface_pid,
        );
        proof {
            assert(res is Ok);
        }
        System {
            core,
            interface_interface_pid: self.interface_interface_pid,
            load_source_virtual_pid: self.load_source_virtual_pid,
            interface_interface_hash: self.interface_interface_hash,
            loader_hash: self.loader_hash,
            loader_pid: 0,
            programs_to_load: self.programs_to_load,
            loading_programs: Vec::new(),
        }
    }
}

impl System {
    /// The system's loader-request source is one of its core's reserved
    /// pids.
    pub open spec fn wf(self) -> bool {
        &&& self.core.wf()
        &&& self.core.is_reserved_pid(self.load_source_virtual_pid)
    }

    /// While a loader is registered, turns every queued program hash into a
    /// loader request, in order, and records the ids whose responses carry
    /// the program bytes. Stops early only at the machine bound on the
    /// outstanding-response table.
    pub fn resume_loading(&mut self)
        requires
            old(self).wf(),
        ensures
            final(self).wf(),
            final(self).loader_pid == old(self).loader_pid,
            final(self).load_source_virtual_pid == old(self).load_source_virtual_pid,
            final(self).loader_hash == old(self).loader_hash,
            final(self).interface_interface_hash == old(self).interface_interface_hash,
            final(self).interface_interface_pid == old(self).interface_interface_pid,
            old(self).loader_pid == 0 ==> final(self).programs_to_load@ == old(self).programs_to_load@ && final(self).loading_programs@ == old(self).loading_programs@
                && final(self).core == old(self).core,
            old(self).loader_pid != 0 ==> ({
                let consumed = old(self).programs_to_load@.len() - final(self).programs_to_load@.len();
                &&& 0 <= consumed <= old(self).programs_to_load@.len()
                &&& final(self).programs_to_load@ == old(self).programs_to_load@.subrange(
                    consumed,
                    old(self).programs_to_load@.len() as int,
                )
                &&& final(self).loading_programs@.len() == old(self).loading_programs@.len()
                    + consumed
                &&& final(self).loading_programs@.subrange(
                    0,
                    old(self).loading_programs@.len() as int,
                ) == old(self).loading_programs@
                &&& (final(self).programs_to_load@.len() == 0 || final(self).core.messages_to_answer@.len() >= MAX_ID_TABLE)
                &&& forall|k: int|
                    old(self).loading_programs@.len() <= k < final(self).loading_programs@.len()
                        ==> final(self).core.table_contains(
                        #[trigger] final(self).loading_programs@[k],
                    ) && final(self).core.table_emitter(final(self).loading_programs@[k]) == old(self).load_source_virtual_pid
            }),
    {
        if self.loader_pid == 0 {
            return ;
        }
        while self.programs_to_load.len() > 0
            invariant
                self.wf(),
                self.loader_pid == old(self).loader_pid,
                self.load_source_virtual_pid == old(self).load_source_virtual_pid,
                self.loader_hash == old(self).loader_hash,
                self.interface_interface_hash == old(self).interface_interface_hash,
                self.interface_interface_pid == old(self).interface_interface_pid,
                old(self).loader_pid != 0,
                self.programs_to_load@.len() <= old(self).programs_to_load@.len(),
                self.programs_to_load@ == old(self).programs_to_load@.subrange(
                    old(self).programs_to_load@.len() - self.programs_to_load@.len(),
                    old(self).programs_to_load@.len() as int,
                ),
                self.loading_programs@.len() == old(self).loading_programs@.len() + old(self).programs_to_load@.len() - self.programs_to_load@.len(),
                self.loading_programs@.subrange(0, old(self).loading_programs@.len() as int)
                    == old(self).loading_programs@,
                forall|k: int|
                    old(self).loading_programs@.len() <= k < self.loading_programs@.len()
                        ==> self.core.table_contains(#[trigger] self.loading_programs@[k])
                        && self.core.table_emitter(self.loading_programs@[k]) == old(self).load_source_virtual_pid,
            decreases self.programs_to_load@.len(),
        {
            if self.core.messages_to_answer.len() >= MAX_ID_TABLE {
                return ;
            }
            let ghost pre = *self;
            let hash = self.programs_to_load.remove(0);
            let mut body: Vec<u8> = Vec::new();
            let mut i: usize = 0;
            while i < 32
                invariant
                    i <= 32,
                    body@.len() == i,
                decreases 32 - i,
            {
                body.push(hash.0[i]);
                i += 1;
            }
            let id = self.core.emit_interface_message_answer(
                self.load_source_virtual_pid,
                self.loader_hash.clone(),
                EncodedMessage(body),
            );
            self.loading_programs.push(id);
            proof {
                assert(self.programs_to_load@ =~= old(self).programs_to_load@.subrange(
                    old(self).programs_to_load@.len() - self.programs_to_load@.len(),
                    old(self).programs_to_load@.len() as int,
                ));
                assert(self.loading_programs@.subrange(0, old(self).loading_programs@.len() as int)
                    =~= old(self).loading_programs@);
                assert forall|k: int|
                    old(self).loading_programs@.len() <= k
                        < self.loading_programs@.len() implies self.core.table_contains(
                    #[trigger] self.loading_programs@[k],
                ) && self.core.table_emitter(self.loading_programs@[k]) == old(self).load_source_virtual_pid by {
                    if k < self.loading_programs@.len() - 1 {
                        assert(self.loading_programs@[k] == pre.loading_programs@[k]);
                        assert(pre.core.table_contains(pre.loading_programs@[k])
                            && pre.core.table_emitter(pre.loading_programs@[k]) == old(self).load_source_virtual_pid);
                        let x = pre.loading_programs@[k];
                        let j = choose|j: int|
                            0 <= j < pre.core.messages_to_answer@.len()
                                && pre.core.messages_to_answer@[j].0 == x;
                        assert(self.core.messages_to_answer@[j].0 == x);
                        let j1 = choose|j2: int|
                            0 <= j2 < pre.core.messages_to_answer@.len()
                                && pre.core.messages_to_answer@[j2].0 == x;
                        let j2 = choose|j3: int|
                            0 <= j3 < self.core.messages_to_answer@.len()
                                && self.core.messages_to_answer@[j3].0 == x;
                        if j1 != j2 {
                            if j2 < pre.core.messages_to_answer@.len() {
                                assert(pre.core.messages_to_answer@[j1].0
                                    != pre.core.messages_to_answer@[j2].0);
                            } else {
                                assert(self.core.messages_to_answer@[j2] == (
                                    id,
                                    old(self).load_source_virtual_pid,
                                ));
                                assert(!pre.core.table_contains(id));
                            }
                        }
                    } else {
                        assert(self.loading_programs@[k] == id);
                    }
                }
            }
        }
    }

    /// Handles one core event at the system level: registration requests on
    /// the `interface` interface are applied to the core and answered,
    /// loader responses create the process for the loaded program, and
    /// everything else is handed to the driver.
    pub fn handle_core_event(&mut self, event: CoreRunOutcome) -> (r: SystemRunOutcome)
        requires
            old(self).wf(),
        ensures
            final(self).wf(),
            final(self).load_source_virtual_pid == old(self).load_source_virtual_pid,
            final(self).interface_interface_pid == old(self).interface_interface_pid,
            final(self).interface_interface_hash == old(self).interface_interface_hash,
            final(self).loader_hash == old(self).loader_hash,
            final(self).programs_to_load@ == old(self).programs_to_load@,
            event is Idle || event is ThreadWaitUnavailableInterface ==> r is Idle && final(self).core == old(self).core && final(self).loader_pid == old(self).loader_pid
                && final(self).loading_programs@ == old(self).loading_programs@,
            (event matches CoreRunOutcome::ProgramFinished { pid, .. } ==> (r matches
                SystemRunOutcome::ProgramFinished { pid: p2 } && p2 == pid) && final(self).core
                == old(self).core && final(self).loading_programs@ == old(self).loading_programs@
                && final(self).loader_pid == (if pid.0 == old(self).loader_pid {
                0u64
            } else {
                old(self).loader_pid
            })),
            (event matches CoreRunOutcome::MessageResponse { message_id, response } ==> ({
                &&& final(self).loader_pid == old(self).loader_pid
                &&& (!old(self).loading_programs@.contains(message_id) ==> (r matches
                    SystemRunOutcome::NativeResponse { message_id: m2, response: r2 } && m2
                        == message_id && r2 == response) && final(self).core == old(self).core
                    && final(self).loading_programs@ == old(self).loading_programs@)
                &&& (old(self).loading_programs@.contains(message_id) ==> {
                    &&& final(self).loading_programs@.len() == old(self).loading_programs@.len()
                        - 1
                    &&& (response matches Ok(bytes) ==> ((r matches
                        SystemRunOutcome::ProgramLoaded { pid: p2, bytes: b2, .. } && b2 == bytes
                            && final(self).core.is_live_pid(p2) && !old(self).core.is_live_pid(p2))
                        || r is Idle))
                    &&& (response is Err ==> r is Idle && final(self).core == old(self).core)
                })
            })),
            (event matches CoreRunOutcome::ReservedPidInterfaceMessage { pid, message_id, interface, message } ==> ({
                &&& (interface@ != old(self).interface_interface_hash@ ==> (r matches
                    SystemRunOutcome::NativeInterfaceMessage { pid: p2, message_id: m2, interface: i2, message: d2 } && p2 == pid && m2 == message_id && i2 == interface && d2 == message)
                    && final(self).core == old(self).core && final(self).loader_pid == old(self).loader_pid && final(self).loading_programs@ == old(self).loading_programs@)
                &&& (interface@ == old(self).interface_interface_hash@ && is_register_request(
                    message@,
                ) ==> ({
                    let h2 = message@.subrange(1, 33);
                    let ok = (old(self).core.is_live_pid(pid) || old(self).core.is_reserved_pid(
                        pid,
                    )) && !(old(self).core.handler_of(h2) is Some);
                    &&& r is Idle
                    &&& (ok ==> final(self).core.handler_of(h2) == Some(pid))
                    &&& (!ok ==> final(self).core.interfaces@ == old(self).core.interfaces@)
                    &&& final(self).loader_pid == (if ok && h2 == old(self).loader_hash@ {
                        pid.0
                    } else {
                        old(self).loader_pid
                    })
                    &&& (message_id matches Some(mid) ==> (old(self).core.table_contains(mid) && !(
                    exists|i: int|
                        #[trigger] old(self).core.thread_pending_id(i, mid)) && !(exists|
                        ii: int,
                        k: int,
                    |
                        #[trigger] old(self).core.other_pending_id(ii, k, mid)) && old(self).core.is_live_pid(old(self).core.table_emitter(mid)) ==> exists|qi: int|
                        0 <= qi < final(self).core.proc_of(
                            old(self).core.table_emitter(mid),
                        ).messages_queue@.len() && ((#[trigger] final(self).core.proc_of(
                            old(self).core.table_emitter(mid),
                        ).messages_queue@[qi]) matches KernelMessage::Response { message_id: m3, actual_data: d3 }
                            && m3 == mid
                            && (d3 matches Ok(b) && b@ == seq![
                            if ok {
                                0u8
                            } else {
                                1u8
                            },
                        ]))))
                }))
                &&& (interface@ == old(self).interface_interface_hash@ && !is_register_request(
                    message@,
                ) ==> r is Idle && final(self).core.interfaces@ == old(self).core.interfaces@
                    && final(self).loader_pid == old(self).loader_pid)
            })),
    {
        match event {
            CoreRunOutcome::ProgramFinished { pid, .. } => {
                if pid.0 == self.loader_pid {
                    self.loader_pid = 0;
                }
                SystemRunOutcome::ProgramFinished { pid }
            },
            CoreRunOutcome::ThreadWaitUnavailableInterface { .. } => SystemRunOutcome::Idle,
            CoreRunOutcome::MessageResponse { message_id, response } => {
                match remove_message_id(&mut self.loading_programs, message_id) {
                    true => {
                        match response {
                            Ok(bytes) => {
                                if self.core.processes.len() < MAX_ID_TABLE
                                    && self.core.reserved_pids.len() < MAX_ID_TABLE
                                    && self.core.processes.len() + self.core.reserved_pids.len()
                                    < MAX_ID_TABLE && self.core.threads.len() < MAX_ID_TABLE {
                                    let (pid, tid) = self.core.execute();
                                    proof {
                                        assert(self.core.processes@.last().pid == pid);
                                        assert(self.core.is_live_pid(pid)) by {
                                            assert(self.core.processes@[self.core.processes@.len()
                                                - 1].pid == pid);
                                        }
                                        assert(!old(self).core.is_live_pid(pid));
                                    }
                                    SystemRunOutcome::ProgramLoaded { pid, tid, bytes }
                                } else {
                                    SystemRunOutcome::Idle
                                }
                            },
                            Err(_) => SystemRunOutcome::Idle,
                        }
                    },
                    false => SystemRunOutcome::NativeResponse { message_id, response },
                }
            },
            CoreRunOutcome::ReservedPidInterfaceMessage { pid, message_id, interface, message } => {
                if interface.eq(&self.interface_interface_hash) {
                    // A registration request.
                    match parse_register_request(&message) {
                        Ok(hash) => {
                            let is_loader = hash.eq(&self.loader_hash);
                            let ghost s0 = *self;
                            let (res, _actions) = self.core.set_interface_handler(hash, pid);
                            let ghost s2 = *self;
                            let ok = res.is_ok();
                            match message_id {
                                Some(id) => {
                                    let mut body: Vec<u8> = Vec::new();
                                    if ok {
                                        body.push(0);
                                    } else {
                                        body.push(1);
                                    }
                                    proof {
                                        assert(body@ =~= seq![
                                            if ok {
                                                0u8
                                            } else {
                                                1u8
                                            },
                                        ]);
                                        if s0.core.table_contains(id) && !(exists|i: int|
                                            #[trigger] s0.core.thread_pending_id(i, id)) && !(
                                        exists|ii: int, k: int|
                                            #[trigger] s0.core.other_pending_id(ii, k, id))
                                            && s0.core.is_live_pid(s0.core.table_emitter(id)) {
                                            // The entry survives registration untouched.
                                            let j = choose|j: int|
                                                0 <= j < s0.core.messages_to_answer@.len()
                                                    && s0.core.messages_to_answer@[j].0 == id;
                                            assert(s2.core.messages_to_answer@[j].0 == id);
                                            assert(s2.core.table_contains(id));
                                            let j1 = choose|j2: int|
                                                0 <= j2 < s0.core.messages_to_answer@.len()
                                                    && s0.core.messages_to_answer@[j2].0 == id;
                                            let j2 = choose|j3: int|
                                                0 <= j3 < s2.core.messages_to_answer@.len()
                                                    && s2.core.messages_to_answer@[j3].0 == id;
                                            if j1 != j2 {
                                                assert(s0.core.messages_to_answer@[j1].0
                                                    != s0.core.messages_to_answer@[j2].0);
                                            }
                                            assert(s2.core.table_emitter(id)
                                                == s0.core.table_emitter(id));
                                            assert forall|i: int| !(
                                            #[trigger] s2.core.thread_pending_id(i, id)) by {
                                                if s2.core.thread_pending_id(i, id) {
                                                    if res is Ok {
                                                        assert(s0.core.thread_pending_id(i, id));
                                                    } else {
                                                        assert(s2.core.threads@
                                                            == s0.core.threads@);
                                                        assert(s0.core.thread_pending_id(i, id));
                                                    }
                                                }
                                            }
                                            assert forall|ii: int, k: int| !(
                                            #[trigger] s2.core.other_pending_id(ii, k, id)) by {
                                                if s2.core.other_pending_id(ii, k, id) {
                                                    if res is Ok {
                                                        let k2 = choose|k2: int|
                                                            s0.core.other_pending_id(ii, k2, id);
                                                        assert(s0.core.other_pending_id(
                                                            ii,
                                                            k2,
                                                            id,
                                                        ));
                                                    } else {
                                                        assert(s2.core.interfaces@
                                                            == s0.core.interfaces@);
                                                        assert(s0.core.other_pending_id(
                                                            ii,
                                                            k,
                                                            id,
                                                        ));
                                                    }
                                                }
                                            }
                                            let e = s0.core.table_emitter(id);
                                            assert(s2.core.is_live_pid(e)) by {
                                                let w = choose|w: int|
                                                    0 <= w < s0.core.processes@.len()
                                                        && s0.core.processes@[w].pid == e;
                                                if res is Ok {
                                                    assert(s2.core.processes@[w].pid == e);
                                                } else {
                                                    assert(s2.core.processes@
                                                        == s0.core.processes@);
                                                }
                                            }
                                        }
                                    }
                                    let _ = self.core.answer_message(id, Ok(EncodedMessage(body)));
                                },
                                None => {},
                            }
                            if ok && is_loader {
                                self.loader_pid = pid.0;
                            }
                            SystemRunOutcome::Idle
                        },
                        Err(_) => {
                            match message_id {
                                Some(id) => {
                                    let _ = self.core.answer_message(id, Err(()));
                                },
                                None => {},
                            }
                            SystemRunOutcome::Idle
                        },
                    }
                } else {
                    SystemRunOutcome::NativeInterfaceMessage { pid, message_id, interface, message }
                }
            },
            CoreRunOutcome::Idle => SystemRunOutcome::Idle,
        }
    }
}

/// Removes `id` from `v` if present; reports whether it was.
fn remove_message_id(v: &mut Vec<MessageId>, id: MessageId) -> (r: bool)
    ensures
        r == old(v)@.contains(id),
        !r ==> final(v)@ == old(v)@,
        r ==> final(v)@.len() == old(v)@.len() - 1,
{
    let mut i: usize = 0;
    while i < v.len()
        invariant
            i <= v@.len(),
            v@ == old(v)@,
            forall|j: int| 0 <= j < i ==> v@[j] != id,
        decreases v@.len() - i,
    {
        if v[i].0 == id.0 {
            v.remove(i);
            proof {
                assert(old(v)@[i as int] == id);
            }
            return true;
        }
        i += 1;
    }
    proof {
        if v@.contains(id) {
            let j = choose|j: int| 0 <= j < v@.len() && v@[j] == id;
            assert(v@[j] != id);
        }
    }
    false
}

} // verus!
