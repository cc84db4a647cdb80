//! Registry for native programs: host code that takes part in the IPC as if
//! it were a process. Each program is assigned a reserved pid; the registry
//! tracks which interfaces it registered and which responses it awaits, so
//! that inbound dispatch only scans the native programs. Outbound
//! registration requests are intercepted here, so the core never needs to
//! notify back.

use vstd::prelude::*;

use crate::ids::{InterfaceHash, MessageId, Pid};

verus! {

/// Registry state of one native program.
#[derive(Debug)]
pub struct NativeProgramState {
    /// The reserved pid assigned to the program.
    pub pid: Pid,
    /// Interfaces the program has registered.
    pub registered: Vec<InterfaceHash>,
    /// Messages the program emitted and awaits a response to.
    pub expected_responses: Vec<MessageId>,
}

/// The collection of native programs.
#[derive(Debug)]
pub struct NativeProgramsCollection {
    /// One state per program; pids are unique.
    pub programs: Vec<NativeProgramState>,
}

impl NativeProgramsCollection {
    /// The pids are pairwise distinct.
    pub open spec fn wf(self) -> bool {
        forall|i: int, j: int|
            0 <= i < j < self.programs@.len() ==> self.programs@[i].pid != self.programs@[j].pid
    }

    /// An empty collection.
    pub fn new() -> (r: NativeProgramsCollection)
        ensures
            r.wf(),
            r.programs@.len() == 0,
    {
        NativeProgramsCollection { programs: Vec::new() }
    }

    /// Adds a program under its reserved pid. Fails if the pid is taken.
    pub fn push(&mut self, pid: Pid) -> (r: Result<(), ()>)
        requires
            old(self).wf(),
        ensures
            final(self).wf(),
            r is Ok <==> !(exists|i: int|
                0 <= i < old(self).programs@.len() && (#[trigger] old(self).programs@[i]).pid
                    == pid),
            r is Ok ==> final(self).programs@ == old(self).programs@.push(
                final(self).programs@.last(),
            ) && final(self).programs@.last().pid == pid && final(self).programs@.last().registered@.len() == 0 && final(self).programs@.last().expected_responses@.len() == 0,
            r is Err ==> final(self).programs@ == old(self).programs@,
    {
        let mut i: usize = 0;
        while i < self.programs.len()
            invariant
                self.wf(),
                self.programs@ == old(self).programs@,
                i <= self.programs@.len(),
                forall|j: int| 0 <= j < i ==> (#[trigger] self.programs@[j]).pid != pid,
            decreases self.programs@.len() - i,
        {
            if self.programs[i].pid.0 == pid.0 {
                return Err(());
            }
            i += 1;
        }
        self.programs.push(
            NativeProgramState { pid, registered: Vec::new(), expected_responses: Vec::new() },
        );
        Ok(())
    }

    /// The program currently registered for `interface`, if any: inbound
    /// interface messages are dispatched to it.
    pub fn interface_handler(&self, interface: &InterfaceHash) -> (r: Option<Pid>)
        ensures
            r is None ==> forall|i: int, k: int|
                0 <= i < self.programs@.len() && 0 <= k < (
                #[trigger] self.programs@[i]).registered@.len() ==> (
                #[trigger] self.programs@[i].registered@[k])@ != interface@,
            r matches Some(p) ==> exists|i: int|
                0 <= i < self.programs@.len() && (#[trigger] self.programs@[i]).pid == p && (
                exists|k: int|
                    0 <= k < self.programs@[i].registered@.len() && (
                    #[trigger] self.programs@[i].registered@[k])@ == interface@) && (forall|
                    j: int,
                    k: int,
                |
                    0 <= j < i && 0 <= k < (#[trigger] self.programs@[j]).registered@.len() ==> (
                    #[trigger] self.programs@[j].registered@[k])@ != interface@),
    {
        let mut i: usize = 0;
        while i < self.programs.len()
            invariant
                i <= self.programs@.len(),
                forall|j: int, k: int|
                    0 <= j < i && 0 <= k < (#[trigger] self.programs@[j]).registered@.len() ==> (
                    #[trigger] self.programs@[j].registered@[k])@ != interface@,
            decreases self.programs@.len() - i,
        {
            let mut k: usize = 0;
            let n = self.programs[i].registered.len();
            while k < n
                invariant
                    k <= n,
                    0 <= i < self.programs@.len(),
                    n == self.programs@[i as int].registered@.len(),
                    forall|k2: int|
                        0 <= k2 < k ==> (#[trigger] self.programs@[i as int].registered@[k2])@
                            != interface@,
                    forall|j: int, k2: int|
                        0 <= j < i && 0 <= k2 < (#[trigger] self.programs@[j]).registered@.len()
                            ==> (#[trigger] self.programs@[j].registered@[k2])@ != interface@,
                decreases n - k,
            {
                if self.programs[i].registered[k].eq(interface) {
                    proof {
                        let wi = i as int;
                        assert((self.programs@[wi].registered@[k as int])@ == interface@);
                        assert(exists|k2: int|
                            0 <= k2 < self.programs@[wi].registered@.len() && (
                            #[trigger] self.programs@[wi].registered@[k2])@ == interface@);
                    }
                    return Some(self.programs[i].pid);
                }
                k += 1;
            }
            i += 1;
        }
        None
    }

    /// The program awaiting the response to `message_id`, if any; the entry
    /// is consumed.
    pub fn message_response(&mut self, message_id: MessageId) -> (r: Option<Pid>)
        requires
            old(self).wf(),
        ensures
            final(self).wf(),
            final(self).programs@.len() == old(self).programs@.len(),
            r is None <==> forall|i: int, k: int|
                0 <= i < old(self).programs@.len() && 0 <= k < old(self).programs@[i].expected_responses@.len() ==> #[trigger] old(self).programs@[i].expected_responses@[k]
                    != message_id,
            r is None ==> final(self).programs@ == old(self).programs@,
            r matches Some(p) ==> exists|i: int, k: int|
                0 <= i < old(self).programs@.len() && old(self).programs@[i].pid == p && 0 <= k
                    < old(self).programs@[i].expected_responses@.len()
                    && #[trigger] old(self).programs@[i].expected_responses@[k] == message_id && (
                forall|k2: int|
                    0 <= k2 < k ==> old(self).programs@[i].expected_responses@[k2] != message_id)
                    && (forall|j: int, k2: int|
                    0 <= j < i && 0 <= k2 < old(self).programs@[j].expected_responses@.len()
                        ==> #[trigger] old(self).programs@[j].expected_responses@[k2]
                        != message_id) && (
                forall|j: int|
                    0 <= j < old(self).programs@.len() && j != i ==> final(self).programs@[j]
                        == old(self).programs@[j]) && final(self).programs@[i].pid == old(self).programs@[i].pid && final(self).programs@[i].registered@ == old(self).programs@[i].registered@ && final(self).programs@[i].expected_responses@ == old(self).programs@[i].expected_responses@.remove(k),
    {
        let mut i: usize = 0;
        while i < self.programs.len()
            invariant
                self.wf(),
                i <= self.programs@.len(),
                self.programs@.len() == old(self).programs@.len(),
                self.programs@ == old(self).programs@,
                forall|j: int, k2: int|
                    0 <= j < i && 0 <= k2 < self.programs@[j].expected_responses@.len()
                        ==> #[trigger] self.programs@[j].expected_responses@[k2] != message_id,
            decreases self.programs@.len() - i,
        {
            let mut k: usize = 0;
            let n = self.programs[i].expected_responses.len();
            while k < n
                invariant
                    k <= n,
                    0 <= i < self.programs@.len(),
                    n == self.programs@[i as int].expected_responses@.len(),
                    self.programs@ == old(self).programs@,
                    forall|k2: int|
                        0 <= k2 < k ==> self.programs@[i as int].expected_responses@[k2]
                            != message_id,
                    forall|j: int, k2: int|
                        0 <= j < i && 0 <= k2 < self.programs@[j].expected_responses@.len()
                            ==> #[trigger] self.programs@[j].expected_responses@[k2]
                            != message_id,
                    forall|a: int, b: int|
                        0 <= a < b < self.programs@.len() ==> self.programs@[a].pid
                            != self.programs@[b].pid,
                decreases n - k,
            {
                if self.programs[i].expected_responses[k].0 == message_id.0 {
                    let pid = self.programs[i].pid;
                    let ghost pre = self.programs@;
                    let mut p = self.programs.remove(i);
                    p.expected_responses.remove(k);
                    self.programs.insert(i, p);
                    proof {
                        assert(self.programs@ =~= pre.update(i as int, self.programs@[i as int]));
                        assert forall|a: int, b: int|
                            0 <= a < b < self.programs@.len() implies self.programs@[a].pid
                            != self.programs@[b].pid by {
                            assert(pre[a].pid != pre[b].pid);
                        }
                        assert(pre[i as int].expected_responses@[k as int] == message_id);
                    }
                    return Some(pid);
                }
                k += 1;
            }
            i += 1;
        }
        proof {
            assert forall|i2: int, k2: int|
                0 <= i2 < old(self).programs@.len() && 0 <= k2 < old(self).programs@[i2].expected_responses@.len() implies #[trigger] old(self).programs@[i2].expected_responses@[k2] != message_id by {}
        }
        None
    }

    /// Observes an outbound emission by the program with `pid`: a
    /// registration request on the `interface` interface is recorded, and
    /// the id of any emission expecting an answer is remembered.
    pub fn note_emit(
        &mut self,
        pid: Pid,
        registered_interface: Option<InterfaceHash>,
        message_id: Option<MessageId>,
    )
        requires
            old(self).wf(),
        ensures
            final(self).wf(),
            final(self).programs@.len() == old(self).programs@.len(),
            (forall|i: int|
                0 <= i < old(self).programs@.len() ==> (#[trigger] old(self).programs@[i]).pid
                    != pid) ==> final(self).programs@ == old(self).programs@,
            forall|i: int|
                0 <= i < old(self).programs@.len() && (#[trigger] old(self).programs@[i]).pid
                    == pid ==> {
                    &&& (forall|j: int|
                        0 <= j < old(self).programs@.len() && j != i ==> final(self).programs@[j]
                            == old(self).programs@[j])
                    &&& final(self).programs@[i].pid == pid
                    &&& final(self).programs@[i].registered@ == (match registered_interface {
                        Some(h) => old(self).programs@[i].registered@.push(h),
                        None => old(self).programs@[i].registered@,
                    })
                    &&& final(self).programs@[i].expected_responses@ == (match message_id {
                        Some(id) => old(self).programs@[i].expected_responses@.push(id),
                        None => old(self).programs@[i].expected_responses@,
                    })
                },
    {
        let mut i: usize = 0;
        while i < self.programs.len()
            invariant
                self.wf(),
                i <= self.programs@.len(),
                self.programs@.len() == old(self).programs@.len(),
                self.programs@ == old(self).programs@,
                forall|j: int| 0 <= j < i ==> (#[trigger] self.programs@[j]).pid != pid,
            decreases self.programs@.len() - i,
        {
            if self.programs[i].pid.0 == pid.0 {
                let ghost pre = self.programs@;
                let mut p = self.programs.remove(i);
                match registered_interface {
                    Some(h) => {
                        p.registered.push(h);
                    },
                    None => {},
                }
                match message_id {
                    Some(id) => {
                        p.expected_responses.push(id);
                    },
                    None => {},
                }
                self.programs.insert(i, p);
                proof {
                    assert(self.programs@ =~= pre.update(i as int, self.programs@[i as int]));
                    assert forall|a: int, b: int|
                        0 <= a < b < self.programs@.len() implies self.programs@[a].pid
                        != self.programs@[b].pid by {
                        assert(pre[a].pid != pre[b].pid);
                    }
                    assert forall|i2: int|
                        0 <= i2 < old(self).programs@.len() && (
                    #[trigger] old(self).programs@[i2]).pid == pid implies i2 == i by {
                        if i2 != i {
                            assert(pre[i2].pid != pre[i as int].pid);
                        }
                    }
                }
                return ;
            }
            i += 1;
        }
        proof {
            assert forall|i2: int|
                0 <= i2 < old(self).programs@.len() implies (
            #[trigger] old(self).programs@[i2]).pid != pid by {}
        }
    }
}

} // verus!
