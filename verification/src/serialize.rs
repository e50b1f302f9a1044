//! The seam between values and bytes: what can be written to a sink or read
//! from a source, the sinks and sources themselves, and the two in-memory
//! ones that let the codec run without a network.

use crate::endian::{from_le_bytes, le_bytes, le_value, to_le_bytes};
use crate::error::{Error, ErrorKind};
use vstd::prelude::*;
use vstd::slice::slice_subrange;

verus! {

/// What the head of a byte string holds.
pub enum Parsed<V> {
    /// The first `used` bytes are the encoding of `value`.
    Value { value: V, used: nat },
    /// The bytes cannot be continued into any encoding; `error` says why.
    Malformed { error: Error },
    /// The bytes stop too early; the next read would ask for `missing` more.
    Short { missing: nat },
}

/// A sink for bytes that takes every buffer whole or fails.
pub trait Encoder {
    /// Every byte the sink has taken so far.
    spec fn written(&self) -> Seq<u8>;

    /// Whether the sink is one that never refuses, such as a buffer in
    /// memory. Nothing is promised of the success of any other sink.
    spec fn steady(&self) -> bool;

    /// Hands `bytes` to the sink.
    fn write(&mut self, bytes: &[u8]) -> (r: Result<(), Error>)
        ensures
            r is Ok ==> final(self).written() == old(self).written() + bytes@,
            r matches Err(e) ==> e.kind() == ErrorKind::Transport,
            old(self).steady() ==> r is Ok,
            final(self).steady() == old(self).steady(),
    ;
}

/// A value that has an encoding.
pub trait Encode {
    /// The bytes that stand for this value.
    spec fn wire(&self) -> Seq<u8>;

    /// Writes the encoding of this value to `encoder`.
    fn encode<E: Encoder>(&self, encoder: &mut E) -> (r: Result<(), Error>)
        ensures
            r is Ok ==> final(encoder).written() == old(encoder).written() + self.wire(),
            r matches Err(e) ==> e.kind() == ErrorKind::Transport,
            old(encoder).steady() ==> r is Ok,
            final(encoder).steady() == old(encoder).steady(),
    ;
}

/// A source of bytes that fills every buffer whole or fails.
pub trait Decoder {
    /// The bytes the source yields from here on. For a source whose content
    /// is not known in advance these are the bytes it turns out to yield.
    spec fn remaining(&self) -> Seq<u8>;

    /// Whether the source is one that fails only by running dry, such as a
    /// slice in memory. Nothing is promised of the success of any other
    /// source.
    spec fn steady(&self) -> bool;

    /// Fills `bytes` with the next bytes of the source. A source that runs
    /// dry says how many bytes were still outstanding.
    fn read(&mut self, bytes: &mut [u8]) -> (r: Result<(), Error>)
        ensures
            final(bytes)@.len() == old(bytes)@.len(),
            r is Ok ==> {
                &&& old(bytes)@.len() <= old(self).remaining().len()
                &&& final(bytes)@ == old(self).remaining().take(old(bytes)@.len() as int)
                &&& final(self).remaining() == old(self).remaining().skip(
                    old(bytes)@.len() as int,
                )
            },
            r matches Err(e) ==> e.kind() == ErrorKind::Transport,
            old(self).steady() ==> match r {
                Ok(_) => true,
                Err(e) => old(self).remaining().len() < old(bytes)@.len() && e
                    == Error::UnexpectedEof(
                    (old(bytes)@.len() - old(self).remaining().len()) as usize,
                ),
            },
            final(self).steady() == old(self).steady(),
    ;
}

/// A value that can be recognised at the head of a byte string.
pub trait Decode: Sized + View {
    /// What the head of `bytes` holds, read as a value of this type.
    spec fn parse(bytes: Seq<u8>) -> Parsed<Self::V>;

    /// Reads one value from `decoder`, taking no byte beyond its encoding.
    fn decode<D: Decoder>(decoder: &mut D) -> (r: Result<Self, Error>)
        ensures
            decode_agrees(
                Self::parse(old(decoder).remaining()),
                old(decoder).steady(),
                old(decoder).remaining(),
                match r {
                    Ok(v) => Ok(v@),
                    Err(e) => Err(e),
                },
                final(decoder).remaining(),
            ),
            final(decoder).steady() == old(decoder).steady(),
    ;
}

/// How the result of a decode relates to the bytes that the source held:
/// a value is the one the bytes encode and leaves the source just behind it;
/// a framing error is the one the bytes show; and a steady source fails
/// otherwise only where the bytes stop too early, and says by how many.
pub open spec fn decode_agrees<V>(
    parsed: Parsed<V>,
    steady: bool,
    before: Seq<u8>,
    result: Result<V, Error>,
    after: Seq<u8>,
) -> bool {
    match result {
        Ok(v) => {
            &&& parsed matches Parsed::Value { value, used }
            &&& value == v
            &&& used <= before.len()
            &&& after == before.skip(used as int)
        },
        Err(e) => match e.kind() {
            ErrorKind::Framing => parsed == (Parsed::<V>::Malformed { error: e }),
            ErrorKind::Transport => steady ==> {
                &&& parsed matches Parsed::Short { missing }
                &&& e matches Error::UnexpectedEof(outstanding)
                &&& outstanding == missing
            },
            _ => false,
        },
    }
}

/// What a decode from a source in memory returns for each reading of its
/// bytes.
pub open spec fn outcome<V>(parsed: Parsed<V>) -> Result<V, Error> {
    match parsed {
        Parsed::Value { value, used } => Ok(value),
        Parsed::Malformed { error } => Err(error),
        Parsed::Short { missing } => Err(Error::UnexpectedEof(missing as usize)),
    }
}

/// One step of an exact read from a source that may bring fewer bytes
/// than it is asked for: what is still outstanding after a read that was
/// asked for `outstanding` bytes and brought `count` of them. A read that
/// brings nothing while bytes are outstanding has met the end of the
/// source, and the exact read fails with their number.
pub fn outstanding_after(outstanding: usize, count: usize) -> (r: Result<usize, Error>)
    ensures
        r == if count == 0 && outstanding > 0 {
            Err::<usize, Error>(Error::UnexpectedEof(outstanding))
        } else if count >= outstanding {
            Ok(0usize)
        } else {
            Ok((outstanding - count) as usize)
        },
{
    if count == 0 && outstanding > 0 {
        Err(Error::UnexpectedEof(outstanding))
    } else if count >= outstanding {
        Ok(0)
    } else {
        Ok(outstanding - count)
    }
}

/// A sink that writes into `T`.
pub struct IoWriter<T> {
    inner: T,
}

impl<T> IoWriter<T> {
    /// What the writer writes into.
    pub closed spec fn inner(&self) -> T {
        self.inner
    }

    /// A writer into `inner`.
    pub fn new(inner: T) -> (writer: Self)
        ensures
            writer.inner() == inner,
    {
        Self { inner }
    }

    /// Gives back what was written into.
    pub fn into_inner(self) -> (inner: T)
        ensures
            inner == self.inner(),
    {
        self.inner
    }
}

impl Encoder for IoWriter<Vec<u8>> {
    open spec fn written(&self) -> Seq<u8> {
        self.inner()@
    }

    open spec fn steady(&self) -> bool {
        true
    }

    fn write(&mut self, bytes: &[u8]) -> (r: Result<(), Error>) {
        self.inner.extend_from_slice(bytes);
        Ok(())
    }
}

/// A source that reads from `T`.
pub struct IoReader<T> {
    inner: T,
}

impl<T> IoReader<T> {
    /// What the reader reads from.
    pub closed spec fn inner(&self) -> T {
        self.inner
    }

    /// A reader from `inner`.
    pub fn new(inner: T) -> (reader: Self)
        ensures
            reader.inner() == inner,
    {
        Self { inner }
    }
}

impl<'a> Decoder for IoReader<&'a [u8]> {
    open spec fn remaining(&self) -> Seq<u8> {
        self.inner()@
    }

    open spec fn steady(&self) -> bool {
        true
    }

    /// Copies the head of the slice and steps past it. A slice too short to
    /// fill `bytes` is used up, as an exact read leaves a drained source.
    fn read(&mut self, bytes: &mut [u8]) -> (r: Result<(), Error>)
        ensures
            r is Err ==> final(self).remaining().len() == 0,
    {
        let count = bytes.len();
        let held = self.inner.len();
        if held < count {
            self.inner = slice_subrange(self.inner, held, held);
            return Err(Error::UnexpectedEof(count - held));
        }
        let mut i: usize = 0;
        while i < count
            invariant
                i <= count <= held,
                count == bytes@.len(),
                held == self.inner@.len(),
                self.inner == old(self).inner,
                forall|k: int| 0 <= k < i ==> bytes@[k] == self.inner@[k],
            decreases count - i,
        {
            bytes[i] = self.inner[i];
            i += 1;
        }
        proof {
            assert(bytes@ =~= self.inner@.take(count as int));
        }
        self.inner = slice_subrange(self.inner, count, held);
        proof {
            assert(self.inner@ =~= old(self).inner@.skip(count as int));
        }
        Ok(())
    }
}

/// What the head of `bytes` holds, read as an unsigned little-endian number
/// of `width` bytes.
pub open spec fn parse_unsigned(bytes: Seq<u8>, width: nat) -> Parsed<nat> {
    if bytes.len() >= width {
        Parsed::Value { value: le_value(bytes.take(width as int)), used: width }
    } else {
        Parsed::Short { missing: (width - bytes.len()) as nat }
    }
}

/// Writes the `width` lowest base-256 digits of `value`, lowest first.
pub(crate) fn write_le<E: Encoder>(encoder: &mut E, value: u64, width: usize) -> (r: Result<
    (),
    Error,
>)
    ensures
        r is Ok ==> final(encoder).written() == old(encoder).written() + le_bytes(
            value as nat,
            width as nat,
        ),
        r matches Err(e) ==> e.kind() == ErrorKind::Transport,
        old(encoder).steady() ==> r is Ok,
        final(encoder).steady() == old(encoder).steady(),
{
    let bytes = to_le_bytes(value, width);
    encoder.write(bytes.as_slice())
}

/// Reads an unsigned little-endian number of `width` bytes.
pub(crate) fn read_le<D: Decoder>(decoder: &mut D, width: usize) -> (r: Result<u64, Error>)
    requires
        width <= 8,
    ensures
        decode_agrees(
            parse_unsigned(old(decoder).remaining(), width as nat),
            old(decoder).steady(),
            old(decoder).remaining(),
            match r {
                Ok(v) => Ok(v as nat),
                Err(e) => Err(e),
            },
            final(decoder).remaining(),
        ),
        final(decoder).steady() == old(decoder).steady(),
{
    let mut bytes: Vec<u8> = vec![0u8; width];
    match decoder.read(bytes.as_mut_slice()) {
        Ok(()) => Ok(from_le_bytes(bytes.as_slice())),
        Err(e) => Err(e),
    }
}

/// Reads one value from the head of `slice`. Bytes behind the value are left
/// alone and change nothing.
pub fn decode_from_slice<T: Decode>(slice: &[u8]) -> (r: Result<T, Error>)
    ensures
        outcome(T::parse(slice@)) == (match r {
            Ok(v) => Ok(v@),
            Err(e) => Err(e),
        }),
{
    let mut reader = IoReader::new(slice);
    T::decode(&mut reader)
}

/// The encoding of `value`.
pub fn encode_to_vec<T: Encode>(value: &T) -> (r: Result<Vec<u8>, Error>)
    ensures
        r matches Ok(bytes) && bytes@ == value.wire(),
{
    let buffer: Vec<u8> = Vec::new();
    let mut writer = IoWriter::new(buffer);
    match value.encode(&mut writer) {
        Ok(()) => {
            let bytes = writer.into_inner();
            assert(bytes@ =~= value.wire());
            Ok(bytes)
        },
        Err(e) => Err(e),
    }
}

} // verus!
