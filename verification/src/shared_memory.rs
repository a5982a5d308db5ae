//! The shared memory segment through which a function hands its output to a
//! function on the same host: a size, then that many bytes of data.
use vstd::prelude::*;

verus! {

/// How many bytes of data the segment holds: 501 MiB.
pub const SHARED_DATA_CAPACITY: usize = 525336576;

/// The contents of the shared memory segment.
pub struct SharedData {
    size: u32,
    data: Vec<u8>,
    is_ready: bool,
}

impl View for SharedData {
    type V = Seq<u8>;

    /// The message that the segment holds: its first `size` bytes of data.
    closed spec fn view(&self) -> Seq<u8> {
        self.data@.take(self.size as int)
    }
}

impl SharedData {
    #[verifier::type_invariant]
    closed spec fn well_formed(self) -> bool {
        &&& self.data@.len() == SHARED_DATA_CAPACITY
        &&& self.size <= SHARED_DATA_CAPACITY
    }

    /// A fresh segment: all bytes zero, holding the empty message.
    pub fn new() -> (s: SharedData)
        ensures
            s@ == Seq::<u8>::empty(),
    {
        let data: Vec<u8> = vec![0u8; SHARED_DATA_CAPACITY];
        let s = SharedData { size: 0, data, is_ready: false };
        assert(s@ =~= Seq::<u8>::empty());
        s
    }

    /// The size of the message that the segment holds.
    pub fn size(&self) -> (n: u32)
        ensures
            n as nat == self@.len(),
    {
        proof {
            use_type_invariant(self);
        }
        self.size
    }

    /// Writes `message` into the segment: its size, then its bytes. The
    /// message must fit in the segment.
    pub fn write_message(&mut self, message: &Vec<u8>)
        requires
            message@.len() <= SHARED_DATA_CAPACITY,
        ensures
            final(self)@ == message@,
    {
        proof {
            use_type_invariant(&*self);
        }
        let n = message.len();
        let mut i: usize = 0;
        while i < n
            invariant
                n == message@.len(),
                n <= SHARED_DATA_CAPACITY,
                i <= n,
                self.data@.len() == SHARED_DATA_CAPACITY,
                self.size <= SHARED_DATA_CAPACITY,
                forall|k: int| 0 <= k < i ==> self.data@[k] == message@[k],
            decreases n - i,
        {
            self.data[i] = message[i];
            i += 1;
        }
        self.size = n as u32;
        assert(self@ =~= message@);
    }

    /// Reads the message that the segment holds.
    pub fn read_message(&self) -> (message: Vec<u8>)
        ensures
            message@ == self@,
    {
        proof {
            use_type_invariant(self);
        }
        match read_shared(self.data.as_slice(), self.size) {
            Some(message) => message,
            None => Vec::new(),
        }
    }
}

/// What a write of `message` makes of a segment whose data is `data`: the new
/// data, `message` followed by the bytes of `data` past it, and the size field
/// that goes with it. `None` when the message does not fit in the data or its
/// length in a size field.
pub open spec fn shared_write(data: Seq<u8>, message: Seq<u8>) -> Option<(Seq<u8>, u32)> {
    if message.len() <= data.len() && message.len() <= u32::MAX {
        Some((message + data.skip(message.len() as int), message.len() as u32))
    } else {
        None
    }
}

/// What a read of a segment whose data is `data` and whose size field is
/// `size` gives: the first `size` bytes; `None` when the data is shorter.
pub open spec fn shared_read(data: Seq<u8>, size: u32) -> Option<Seq<u8>> {
    if size <= data.len() {
        Some(data.take(size as int))
    } else {
        None
    }
}

/// Copies `message` into the front of the segment's `data`, leaves the bytes
/// past it as they were, and returns the size field to store with it. When the
/// message does not fit, `data` is left as it was and the result is `None`.
pub fn write_shared(data: &mut [u8], message: &[u8]) -> (size: Option<u32>)
    ensures
        match shared_write(old(data)@, message@) {
            Some((written, n)) => size == Some(n) && final(data)@ == written,
            None => size is None && final(data)@ == old(data)@,
        },
{
    let n = message.len();
    if n > data.len() || n > 4294967295usize {
        return None;
    }
    let mut i: usize = 0;
    while i < n
        invariant
            n == message@.len(),
            n <= data@.len(),
            data@.len() == old(data)@.len(),
            i <= n,
            forall|k: int| 0 <= k < i ==> data@[k] == message@[k],
            forall|k: int| n <= k < data@.len() ==> data@[k] == old(data)@[k],
        decreases n - i,
    {
        data[i] = message[i];
        i += 1;
    }
    assert(data@ =~= message@ + old(data)@.skip(n as int));
    Some(n as u32)
}

/// The message that a segment whose data is `data` and whose size field is
/// `size` holds: its first `size` bytes. `None` when `size` names more bytes
/// than `data` has.
pub fn read_shared(data: &[u8], size: u32) -> (message: Option<Vec<u8>>)
    ensures
        match shared_read(data@, size) {
            Some(m) => message matches Some(v) && v@ == m,
            None => message is None,
        },
{
    if size as usize > data.len() {
        return None;
    }
    let n = size as usize;
    let mut message: Vec<u8> = Vec::new();
    let mut i: usize = 0;
    while i < n
        invariant
            n == size,
            n <= data@.len(),
            i <= n,
            message@ == data@.take(i as int),
        decreases n - i,
    {
        message.push(data[i]);
        i += 1;
        assert(message@ =~= data@.take(i as int));
    }
    Some(message)
}

/// Reading a segment with the size field that a write returned gives back the
/// message written; and a write fails only on a message longer than the data or
/// than a size field can count.
pub proof fn law_shared_round_trip(data: Seq<u8>, message: Seq<u8>)
    ensures
        match shared_write(data, message) {
            Some((written, n)) => shared_read(written, n) == Some(message),
            None => message.len() > data.len() || message.len() > u32::MAX,
        },
{
    if let Some((written, n)) = shared_write(data, message) {
        assert(written.take(n as int) =~= message);
    }
}

/// The name of the shared memory segment of the function listening on `channel`.
pub open spec fn segment_name(channel: Seq<char>) -> Seq<char> {
    seq!['/'] + channel
}

/// The name of the segment of the function listening on `channel`: `'/'` then the channel.
pub fn segment_name_of(channel: &str) -> (name: String)
    ensures
        name@ == segment_name(channel@),
{
    proof {
        reveal_strlit("/");
    }
    let mut name = "/".to_owned();
    name.append(channel);
    name
}

} // verus!
