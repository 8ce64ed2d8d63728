//! The answering side of the handshake that prepares a direct connection
//! between two peers behind relays: what to do with each message that
//! arrives. Reading and sending is left to whoever holds the stream.

use crate::types::address_views;
use crate::types::Address;
use libp2p_core::multiaddr::Protocol;
use libp2p_core::Multiaddr;
use quick_protobuf_codec::Error as CodecError;
use vstd::prelude::*;
use vstd::std_specs::convert::FromSpecImpl;

verus! {

/// `quick_protobuf_codec::Error`, the error of a frame that could not be
/// encoded or decoded. Verus sees nothing inside it.
#[verifier::external_type_specification]
#[verifier::external_body]
pub struct ExCodecError(CodecError);

/// `std::io::Error`. Verus sees nothing inside it.
#[verifier::external_type_specification]
#[verifier::external_body]
pub struct ExIoError(std::io::Error);

/// What the other side did against the protocol.
#[derive(Debug)]
pub enum ProtocolViolation {
    /// A message could not be encoded or decoded.
    Codec(CodecError),
    /// A message that has to name addresses names none.
    NoAddresses,
    /// The type of a message could not be read.
    ParseTypeField,
    /// A `Connect` message came where a `Sync` message was due.
    UnexpectedTypeConnect,
    /// A `Sync` message came where a `Connect` message was due.
    UnexpectedTypeSync,
}

/// Why a handshake failed.
#[derive(Debug)]
pub enum Error {
    /// The stream failed.
    Io(std::io::Error),
    /// The other side broke the protocol.
    Protocol(ProtocolViolation),
}

impl From<CodecError> for ProtocolViolation {
    fn from(e: CodecError) -> (violation: Self) {
        ProtocolViolation::Codec(e)
    }
}

impl FromSpecImpl<CodecError> for ProtocolViolation {
    open spec fn obeys_from_spec() -> bool {
        true
    }

    open spec fn from_spec(e: CodecError) -> Self {
        ProtocolViolation::Codec(e)
    }
}

impl From<CodecError> for Error {
    fn from(e: CodecError) -> (error: Self) {
        Error::Protocol(ProtocolViolation::Codec(e))
    }
}

impl FromSpecImpl<CodecError> for Error {
    open spec fn obeys_from_spec() -> bool {
        true
    }

    open spec fn from_spec(e: CodecError) -> Self {
        Error::Protocol(ProtocolViolation::Codec(e))
    }
}

impl From<ProtocolViolation> for Error {
    fn from(violation: ProtocolViolation) -> (error: Self) {
        Error::Protocol(violation)
    }
}

impl FromSpecImpl<ProtocolViolation> for Error {
    open spec fn obeys_from_spec() -> bool {
        true
    }

    open spec fn from_spec(violation: ProtocolViolation) -> Self {
        Error::Protocol(violation)
    }
}

impl From<std::io::Error> for Error {
    fn from(e: std::io::Error) -> (error: Self) {
        Error::Io(e)
    }
}

impl FromSpecImpl<std::io::Error> for Error {
    open spec fn obeys_from_spec() -> bool {
        true
    }

    open spec fn from_spec(e: std::io::Error) -> Self {
        Error::Io(e)
    }
}

/// The two kinds of message of the handshake.
#[derive(Clone, Copy, Debug, PartialEq, Eq, Structural)]
pub enum MessageType {
    /// Opens the handshake, and answers its opening.
    Connect,
    /// Tells the answering side to start dialing.
    Sync,
}

/// One message of the handshake.
#[derive(Debug)]
pub struct HolePunch {
    /// The kind of the message.
    pub type_pb: MessageType,
    /// The addresses at which the sender believes it can be reached, each
    /// in its binary form, as they came: not checked.
    pub obs_addrs: Vec<Vec<u8>>,
}

/// The byte strings of a list, each as a sequence.
pub open spec fn byte_views(raw: Seq<Vec<u8>>) -> Seq<Seq<u8>> {
    Seq::new(raw.len(), |i: int| raw[i]@)
}

/// Whether the bytes are the binary form of an address.
pub uninterp spec fn is_multiaddr(bytes: Seq<u8>) -> bool;

/// For each protocol of the address that the bytes are the binary form of,
/// in order, whether it is the protocol of a relayed circuit.
pub uninterp spec fn circuit_marks(bytes: Seq<u8>) -> Seq<bool>;

/// Calls `Multiaddr::try_from` on a copy of the bytes, which accepts them
/// exactly if they are the binary form of an address, and then
/// `Multiaddr::iter`, which walks the protocols of that address: each is
/// marked if it is `Protocol::P2pCircuit`.
#[verifier::external_body]
fn circuit_marks_of(bytes: &Vec<u8>) -> (marks: Option<Vec<bool>>)
    ensures
        marks is Some <==> is_multiaddr(bytes@),
        marks matches Some(list) ==> list@ == circuit_marks(bytes@),
{
    let address = Multiaddr::try_from(bytes.clone()).ok()?;
    Some(address.iter().map(|protocol| protocol == Protocol::P2pCircuit).collect())
}

/// Calls `std::io::Error::from` with `ErrorKind::UnexpectedEof`: the error
/// of a stream that ended too early. Nothing is claimed of the value.
#[verifier::external_body]
fn unexpected_eof() -> std::io::Error {
    std::io::Error::from(std::io::ErrorKind::UnexpectedEof)
}

/// An address is direct when the bytes are an address and none of its
/// protocols is that of a relayed circuit.
pub open spec fn direct(bytes: Seq<u8>) -> bool {
    is_multiaddr(bytes) && !circuit_marks(bytes).contains(true)
}

/// Tells the direct addresses from the rest.
pub open spec fn is_direct() -> spec_fn(Seq<u8>) -> bool {
    |bytes: Seq<u8>| direct(bytes)
}

/// Keeps `bytes` as an address where `marks` says that they are one and
/// that no protocol of it is marked. `marks` is `None` for bytes that are no
/// address.
pub fn keep_direct(bytes: &Vec<u8>, marks: Option<Vec<bool>>) -> (kept: Option<Address>)
    ensures
        kept is Some <==> (marks matches Some(list) && !list@.contains(true)),
        kept matches Some(address) ==> address@ == bytes@,
{
    match marks {
        Some(list) => {
            let mut i: usize = 0;
            while i < list.len()
                invariant
                    marks == Some(list),
                    i <= list@.len(),
                    forall|j: int| 0 <= j < i ==> !(#[trigger] list@[j]),
                decreases list@.len() - i,
            {
                if list[i] {
                    return None;
                }
                i = i + 1;
            }
            Some(Address::from_bytes(bytes.clone()))
        },
        None => None,
    }
}

/// The direct addresses among `raw`, in their order. Bytes that are no
/// address are passed over, and so are relayed addresses.
pub fn observed_addresses(raw: &Vec<Vec<u8>>) -> (observed: Vec<Address>)
    ensures
        address_views(observed@) == byte_views(raw@).filter(is_direct()),
{
    let mut observed: Vec<Address> = Vec::new();
    let mut i: usize = 0;
    proof {
        reveal(Seq::filter);
    }
    while i < raw.len()
        invariant
            i <= raw@.len(),
            address_views(observed@) == byte_views(raw@).take(i as int).filter(is_direct()),
        decreases raw@.len() - i,
    {
        let ghost seen = byte_views(raw@).take(i as int);
        let marks = circuit_marks_of(&raw[i]);
        proof {
            assert(byte_views(raw@).take(i + 1) =~= seen.push(raw@[i as int]@));
            seen.lemma_filter_push(raw@[i as int]@, is_direct());
        }
        if let Some(address) = keep_direct(&raw[i], marks) {
            observed.push(address);
        }
        i = i + 1;
    }
    proof {
        assert(byte_views(raw@).take(raw@.len() as int) =~= byte_views(raw@));
    }
    observed
}

/// Where the answering side of a handshake stands.
#[derive(Debug)]
pub enum Handshake {
    /// The opening `Connect` message is awaited. The candidates are the
    /// addresses of this side, to be told in the answer.
    AwaitingConnect { candidates: Vec<Address> },
    /// The answer was given, and the `Sync` message is awaited. The observed
    /// addresses are those that the other side told.
    AwaitingSync { observed: Vec<Address> },
}

/// What reading the stream gave.
#[derive(Debug)]
pub enum Received {
    /// A message.
    Message(HolePunch),
    /// Nothing: the stream has ended.
    Closed,
    /// A frame that is no message.
    Failed(CodecError),
}

/// What is to be done next.
#[derive(Debug)]
pub enum Next {
    /// Send `message`, and go on from `then` with what is read after it.
    Reply { message: HolePunch, then: Handshake },
    /// The handshake is over: with the direct addresses of the other side,
    /// or with the reason of its failure.
    Done(Result<Vec<Address>, Error>),
}

impl Handshake {
    /// The handshake before anything was read.
    pub fn new(candidates: Vec<Address>) -> (handshake: Self)
        ensures
            handshake == (Handshake::AwaitingConnect { candidates }),
    {
        Handshake::AwaitingConnect { candidates }
    }

    /// Decides what follows from what was read.
    ///
    /// A stream that has ended, or a frame that is no message, ends the
    /// handshake. The opening message has to name at least one address and
    /// to be a `Connect` message; it is answered with a `Connect` message
    /// that tells the candidates. The message after that has to be a `Sync`
    /// message, and the handshake ends with the direct addresses that the
    /// opening message named.
    pub fn on_received(self, received: Received) -> (next: Next)
        ensures
            match received {
                Received::Closed => next matches Next::Done(Err(Error::Io(_))),
                Received::Failed(cause) => next == Next::Done(
                    Err(Error::Protocol(ProtocolViolation::Codec(cause))),
                ),
                Received::Message(message) => match self {
                    Handshake::AwaitingConnect { candidates } => if message.obs_addrs@.len() == 0 {
                        next == Next::Done(Err(Error::Protocol(ProtocolViolation::NoAddresses)))
                    } else if message.type_pb != MessageType::Connect {
                        next == Next::Done(
                            Err(Error::Protocol(ProtocolViolation::UnexpectedTypeSync)),
                        )
                    } else {
                        &&& next matches Next::Reply { message: reply, then }
                        &&& reply.type_pb == MessageType::Connect
                        &&& byte_views(reply.obs_addrs@) == address_views(candidates@)
                        &&& then matches Handshake::AwaitingSync { observed }
                        &&& address_views(observed@) == byte_views(message.obs_addrs@).filter(
                            is_direct(),
                        )
                    },
                    Handshake::AwaitingSync { observed } => if message.type_pb
                        != MessageType::Sync {
                        next == Next::Done(
                            Err(Error::Protocol(ProtocolViolation::UnexpectedTypeConnect)),
                        )
                    } else {
                        next == Next::Done(Ok(observed))
                    },
                },
            },
    {
        let message = match received {
            Received::Message(message) => message,
            Received::Closed => {
                return Next::Done(Err(Error::from(unexpected_eof())));
            },
            Received::Failed(cause) => {
                return Next::Done(Err(Error::from(cause)));
            },
        };
        match self {
            Handshake::AwaitingConnect { candidates } => {
                if message.obs_addrs.len() == 0 {
                    return Next::Done(Err(Error::Protocol(ProtocolViolation::NoAddresses)));
                }
                let observed = observed_addresses(&message.obs_addrs);
                if message.type_pb != MessageType::Connect {
                    return Next::Done(Err(Error::Protocol(ProtocolViolation::UnexpectedTypeSync)));
                }
                let mut told: Vec<Vec<u8>> = Vec::new();
                let mut i: usize = 0;
                while i < candidates.len()
                    invariant
                        i <= candidates@.len(),
                        told@.len() == i,
                        forall|j: int| 0 <= j < i ==> (#[trigger] told@[j])@ == candidates@[j]@,
                    decreases candidates@.len() - i,
                {
                    told.push(candidates[i].as_bytes().clone());
                    i = i + 1;
                }
                let reply = HolePunch { type_pb: MessageType::Connect, obs_addrs: told };
                Next::Reply { message: reply, then: Handshake::AwaitingSync { observed } }
            },
            Handshake::AwaitingSync { observed } => {
                if message.type_pb != MessageType::Sync {
                    return Next::Done(
                        Err(Error::Protocol(ProtocolViolation::UnexpectedTypeConnect)),
                    );
                }
                Next::Done(Ok(observed))
            },
        }
    }
}

} // verus!
