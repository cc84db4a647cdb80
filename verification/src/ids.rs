//! Identifier and payload types shared by the whole kernel: process, thread
//! and message identifiers, interface hashes, and opaque message payloads.

use vstd::prelude::*;

verus! {

/// Identifier of a process. Stable for the life of the process; also used for
/// the "reserved" virtual processes hosted by the kernel itself.
#[derive(Debug, Clone, Copy, PartialEq, Eq, Structural, Hash)]
pub struct Pid(pub u64);

/// Identifier of a thread, unique across the whole system.
#[derive(Debug, Clone, Copy, PartialEq, Eq, Structural, Hash)]
pub struct ThreadId(pub u64);

/// Identifier of a message that expects a response, unique across the whole
/// system for its lifetime.
#[derive(Debug, Clone, Copy, PartialEq, Eq, Structural, Hash)]
pub struct MessageId(pub u64);

impl From<u64> for Pid {
    fn from(raw: u64) -> (r: Pid) {
        Pid(raw)
    }
}

impl vstd::std_specs::convert::FromSpecImpl<u64> for Pid {
    open spec fn obeys_from_spec() -> bool {
        true
    }

    open spec fn from_spec(raw: u64) -> Pid {
        Pid(raw)
    }
}

impl From<u64> for ThreadId {
    fn from(raw: u64) -> (r: ThreadId) {
        ThreadId(raw)
    }
}

impl vstd::std_specs::convert::FromSpecImpl<u64> for ThreadId {
    open spec fn obeys_from_spec() -> bool {
        true
    }

    open spec fn from_spec(raw: u64) -> ThreadId {
        ThreadId(raw)
    }
}

impl From<u64> for MessageId {
    fn from(raw: u64) -> (r: MessageId) {
        MessageId(raw)
    }
}

impl vstd::std_specs::convert::FromSpecImpl<u64> for MessageId {
    open spec fn obeys_from_spec() -> bool {
        true
    }

    open spec fn from_spec(raw: u64) -> MessageId {
        MessageId(raw)
    }
}

/// Opaque 32-byte identifier of an interface. Equality is byte-equality;
/// interfaces form a flat global namespace.
#[derive(Debug)]
pub struct InterfaceHash(pub [u8; 32]);

impl Clone for InterfaceHash {
    fn clone(&self) -> (r: InterfaceHash)
        ensures
            r@ == self@,
    {
        InterfaceHash(self.0)
    }
}

impl View for InterfaceHash {
    type V = Seq<u8>;

    open spec fn view(&self) -> Seq<u8> {
        self.0@
    }
}

impl PartialEq for InterfaceHash {
    fn eq(&self, other: &InterfaceHash) -> (r: bool) {
        let mut i: usize = 0;
        while i < 32
            invariant
                i <= 32,
                forall|j: int| 0 <= j < i ==> self.0@[j] == other.0@[j],
            decreases 32 - i,
        {
            if self.0[i] != other.0[i] {
                return false;
            }
            i += 1;
        }
        proof {
            assert(self.0@ =~= other.0@);
        }
        true
    }
}

impl Eq for InterfaceHash {
}

impl vstd::std_specs::cmp::PartialEqSpecImpl for InterfaceHash {
    open spec fn obeys_eq_spec() -> bool {
        true
    }

    open spec fn eq_spec(&self, other: &InterfaceHash) -> bool {
        self@ == other@
    }
}

impl From<[u8; 32]> for InterfaceHash {
    fn from(raw: [u8; 32]) -> (r: InterfaceHash) {
        InterfaceHash(raw)
    }
}

impl vstd::std_specs::convert::FromSpecImpl<[u8; 32]> for InterfaceHash {
    open spec fn obeys_from_spec() -> bool {
        true
    }

    open spec fn from_spec(raw: [u8; 32]) -> InterfaceHash {
        InterfaceHash(raw)
    }
}

/// An encoded message body. The kernel never inspects its contents.
#[derive(Debug)]
pub struct EncodedMessage(pub Vec<u8>);

impl View for EncodedMessage {
    type V = Seq<u8>;

    open spec fn view(&self) -> Seq<u8> {
        self.0@
    }
}

impl PartialEq for EncodedMessage {
    fn eq(&self, other: &EncodedMessage) -> (r: bool) {
        if self.0.len() != other.0.len() {
            return false;
        }
        let mut i: usize = 0;
        while i < self.0.len()
            invariant
                i <= self.0@.len(),
                self.0@.len() == other.0@.len(),
                forall|j: int| 0 <= j < i ==> self.0@[j] == other.0@[j],
            decreases self.0@.len() - i,
        {
            if self.0[i] != other.0[i] {
                return false;
            }
            i += 1;
        }
        proof {
            assert(self.0@ =~= other.0@);
        }
        true
    }
}

impl Eq for EncodedMessage {
}

impl vstd::std_specs::cmp::PartialEqSpecImpl for EncodedMessage {
    open spec fn obeys_eq_spec() -> bool {
        true
    }

    open spec fn eq_spec(&self, other: &EncodedMessage) -> bool {
        self@ == other@
    }
}

impl Clone for EncodedMessage {
    fn clone(&self) -> (r: EncodedMessage)
        ensures
            r@ == self@,
    {
        EncodedMessage(clone_bytes(&self.0))
    }
}

/// Copies a byte vector.
pub fn clone_bytes(v: &Vec<u8>) -> (r: Vec<u8>)
    ensures
        r@ == v@,
{
    let mut out: Vec<u8> = Vec::with_capacity(v.len());
    let mut i: usize = 0;
    while i < v.len()
        invariant
            i <= v@.len(),
            out@ == v@.subrange(0, i as int),
        decreases v@.len() - i,
    {
        out.push(v[i]);
        proof {
            assert(out@ =~= v@.subrange(0, i + 1 as int));
        }
        i += 1;
    }
    proof {
        assert(out@ =~= v@);
    }
    out
}

} // verus!
