use vstd::prelude::*;
use vstd::string::StringExecFns;
use vstd::string::StrSliceExecFns;

use crate::hex::{
    byte_of_digits, digit_value, hex_digit_str, hex_digit_value, hex_of, nibble_at, parse_hex,
};

verus! {

/// Length of a peer id in bytes.
pub const PEER_ID_LENGTH: usize = 32;

/// `std::io::Error`, carried through as a value that nothing looks into.
#[verifier::external_type_specification]
#[verifier::external_body]
pub struct ExIoError(std::io::Error);

/// The error that `std::io::Error::new` builds from the kind `Other` and a
/// message.
pub uninterp spec fn io_error_other(message: Seq<char>) -> std::io::Error;

/// An error of the kind `Other` with a message. The body calls
/// `std::io::Error::new` with `ErrorKind::Other` and the message as payload;
/// the contract says that the error is a function of the message alone,
/// and no more.
#[verifier::external_body]
pub fn new_io_error(s: &str) -> (e: std::io::Error)
    ensures
        e == io_error_other(s@),
{
    std::io::Error::new(std::io::ErrorKind::Other, s)
}

/// A peer's identity on the overlay: 32 bytes derived from its public key.
#[derive(Copy, Clone, Debug, Eq, PartialOrd, Ord, Hash)]
pub struct PeerId(pub [u8; 32]);

impl View for PeerId {
    type V = Seq<u8>;

    open spec fn view(&self) -> Seq<u8> {
        self.0@
    }
}

impl PartialEq for PeerId {
    fn eq(&self, other: &PeerId) -> (r: bool) {
        let mut i: usize = 0;
        while i < 32
            invariant
                i <= 32,
                forall|j: int| 0 <= j < i ==> self.0[j] == other.0[j],
            decreases 32 - i,
        {
            if self.0[i] != other.0[i] {
                return false;
            }
            i += 1;
        }
        true
    }
}

impl vstd::std_specs::cmp::PartialEqSpecImpl for PeerId {
    open spec fn obeys_eq_spec() -> bool {
        true
    }

    open spec fn eq_spec(&self, other: &PeerId) -> bool {
        self.0 =~= other.0
    }
}

impl Default for PeerId {
    fn default() -> (id: PeerId)
        ensures
            id == PeerId::default_id(),
    {
        PeerId::zero()
    }
}

impl PeerId {
    /// The id of 32 zero bytes, which stands for "no id".
    pub open spec fn default_id() -> PeerId {
        PeerId(vstd::array::spec_array_fill_for_copy_type(0u8))
    }

    /// The id of 32 zero bytes.
    pub fn zero() -> (id: PeerId)
        ensures
            id == PeerId::default_id(),
            id@ == Seq::new(32, |i: int| 0u8),
    {
        let id = PeerId([0u8;32]);
        assert(id@ =~= Seq::new(32, |i: int| 0u8));
        id
    }

    /// The hexadecimal form: two lower-case digits per byte, 64 in all.
    pub open spec fn hex(self) -> Seq<char> {
        hex_of(self@)
    }

    /// The short form shown in logs: `0x`, the first four digits, three
    /// dots and the last five digits.
    pub open spec fn short(self) -> Seq<char> {
        seq!['0', 'x'] + self.hex().subrange(0, 4) + seq!['.', '.', '.'] + self.hex().subrange(
            59,
            64,
        )
    }

    /// Two ids with the same bytes are the same id.
    pub proof fn lemma_view_injective(a: PeerId, b: PeerId)
        ensures
            a@ == b@ <==> a == b,
    {
        if a@ == b@ {
            assert(a.0 =~= b.0);
        }
    }

    /// The full form shown in logs: `0x` and the hexadecimal form.
    pub fn show(&self) -> (shown: String)
        ensures
            shown@ == seq!['0', 'x'] + self.hex(),
    {
        let mut shown = String::from_str("0x");
        proof {
            reveal_strlit("0x");
            assert(shown@ =~= seq!['0', 'x']);
        }
        let hex = self.to_hex();
        shown.append(hex.as_str());
        shown
    }

    /// The `k`-th hexadecimal digit's value.
    fn nibble(&self, k: usize) -> (n: u8)
        requires
            k < 64,
        ensures
            n == nibble_at(self@, k as int),
            n < 16,
    {
        let byte = self.0[k / 2];
        if k % 2 == 0 {
            byte / 16
        } else {
            byte % 16
        }
    }

    /// The short form of the id for logs.
    pub fn short_show(&self) -> (shown: String)
        ensures
            shown@ == self.short(),
    {
        let mut shown = String::from_str("0x");
        proof {
            reveal_strlit("0x");
            assert(shown@ =~= seq!['0', 'x'] + self.hex().subrange(0, 0));
        }
        let mut i: usize = 0;
        while i < 4
            invariant
                i <= 4,
                shown@ == seq!['0', 'x'] + self.hex().subrange(0, i as int),
            decreases 4 - i,
        {
            shown.append(hex_digit_str(self.nibble(i)));
            i += 1;
            assert(shown@ =~= seq!['0', 'x'] + self.hex().subrange(0, i as int));
        }
        shown.append("...");
        let ghost head = shown@;
        proof {
            reveal_strlit("...");
            assert(head =~= seq!['0', 'x'] + self.hex().subrange(0, 4) + seq!['.', '.', '.']);
            assert(shown@ =~= head + self.hex().subrange(59, 59));
        }
        let mut k: usize = 59;
        while k < 64
            invariant
                59 <= k <= 64,
                shown@ == head + self.hex().subrange(59, k as int),
            decreases 64 - k,
        {
            shown.append(hex_digit_str(self.nibble(k)));
            k += 1;
            assert(shown@ =~= head + self.hex().subrange(59, k as int));
        }
        shown
    }

    /// The id with the given bytes, of which there must be 32.
    pub fn from_bytes(bytes: &[u8]) -> (res: Result<PeerId, std::io::Error>)
        ensures
            bytes@.len() == 32 ==> res is Ok && res->Ok_0@ == bytes@,
            bytes@.len() != 32 ==> res == Err::<PeerId, std::io::Error>(
                io_error_other("peer id bytes failure."@),
            ),
    {
        if bytes.len() != PEER_ID_LENGTH {
            return Err(new_io_error("peer id bytes failure."));
        }
        let mut raw = [0u8;32];
        let mut i: usize = 0;
        while i < 32
            invariant
                i <= 32,
                bytes@.len() == 32,
                forall|j: int| 0 <= j < i ==> raw@[j] == bytes@[j],
            decreases 32 - i,
        {
            raw[i] = bytes[i];
            i += 1;
        }
        assert(raw@ =~= bytes@);
        Ok(PeerId(raw))
    }

    /// The id's 32 bytes.
    pub fn as_bytes(&self) -> (bytes: &[u8])
        ensures
            bytes@ == self@,
    {
        self.0.as_slice()
    }

    /// A copy of the id's 32 bytes.
    pub fn to_bytes(&self) -> (bytes: Vec<u8>)
        ensures
            bytes@ == self@,
    {
        vstd::slice::slice_to_vec(self.0.as_slice())
    }

    /// Reads 64 hexadecimal digits, upper or lower case. Anything else is
    /// refused: another length gives the length error, a character that is
    /// no digit the digit error.
    pub fn from_hex(s: &str) -> (res: Result<PeerId, std::io::Error>)
        ensures
            parse_hex(s@) is Some ==> res is Ok && res->Ok_0@ == parse_hex(s@)->Some_0,
            s@.len() != 64 ==> res == Err::<PeerId, std::io::Error>(
                io_error_other("peer bytes failure."@),
            ),
            s@.len() == 64 && parse_hex(s@) is None ==> res == Err::<PeerId, std::io::Error>(
                io_error_other("peer hex failure."@),
            ),
    {
        if s.unicode_len() != 64 {
            return Err(new_io_error("peer bytes failure."));
        }
        let mut value = [0u8;32];
        let mut i: usize = 0;
        while i < 32
            invariant
                i <= 32,
                s@.len() == 64,
                forall|j: int| 0 <= j < 2 * i ==> hex_digit_value(#[trigger] s@[j]) is Some,
                forall|j: int|
                    0 <= j < i ==> #[trigger] value@[j] == byte_of_digits(s@[2 * j], s@[2 * j + 1]),
            decreases 32 - i,
        {
            let high = digit_value(s.get_char(2 * i));
            let low = digit_value(s.get_char(2 * i + 1));
            match (high, low) {
                (Some(h), Some(l)) => {
                    value[i] = 16 * h + l;
                },
                _ => {
                    return Err(new_io_error("peer hex failure."));
                },
            }
            i += 1;
        }
        assert(value@ =~= parse_hex(s@)->Some_0);
        Ok(PeerId(value))
    }

    /// The id as 64 lower-case hexadecimal digits.
    pub fn to_hex(&self) -> (hex: String)
        ensures
            hex@ == self.hex(),
    {
        let mut hex = String::new();
        let mut i: usize = 0;
        assert(hex@ =~= hex_of(self@.subrange(0, 0)));
        while i < 32
            invariant
                i <= 32,
                hex@ == hex_of(self@.subrange(0, i as int)),
            decreases 32 - i,
        {
            let byte = self.0[i];
            hex.append(hex_digit_str(byte / 16));
            hex.append(hex_digit_str(byte % 16));
            i += 1;
            assert(hex@ =~= hex_of(self@.subrange(0, i as int)));
        }
        assert(self@.subrange(0, 32) =~= self@);
        hex
    }
}

/// Whether two strings hold the same characters.
fn str_equals(a: &str, b: &str) -> (same: bool)
    ensures
        same == (a@ == b@),
{
    let n = a.unicode_len();
    if n != b.unicode_len() {
        return false;
    }
    let mut i: usize = 0;
    while i < n
        invariant
            i <= n,
            n == a@.len(),
            n == b@.len(),
            forall|j: int| 0 <= j < i ==> a@[j] == b@[j],
        decreases n - i,
    {
        if a.get_char(i) != b.get_char(i) {
            return false;
        }
        i += 1;
    }
    assert(a@ =~= b@);
    true
}

/// Broadcast algorithms offered to the application.
#[derive(Debug, Clone, Copy, PartialEq, Eq, Structural)]
pub enum Broadcast {
    Gossip,
    StableAll,
}

/// Transport kinds an endpoint can speak.
#[derive(Debug, Clone, Copy, PartialEq, Eq, Hash, Structural)]
pub enum TransportType {
    QUIC,
    TCP,
    RTP,
    UDT,
}

impl TransportType {
    /// The wire byte of each transport kind.
    pub open spec fn byte_of(self) -> u8 {
        match self {
            TransportType::QUIC => 0u8,
            TransportType::TCP => 1u8,
            TransportType::RTP => 2u8,
            TransportType::UDT => 3u8,
        }
    }

    /// The transport kind that a wire byte stands for.
    pub open spec fn of_byte(b: u8) -> Option<TransportType> {
        match b {
            0u8 => Some(TransportType::QUIC),
            1u8 => Some(TransportType::TCP),
            2u8 => Some(TransportType::RTP),
            3u8 => Some(TransportType::UDT),
            _ => None,
        }
    }

    /// The configuration name of each transport kind.
    pub open spec fn name_of(self) -> Seq<char> {
        match self {
            TransportType::QUIC => "quic"@,
            TransportType::TCP => "tcp"@,
            TransportType::RTP => "rtp"@,
            TransportType::UDT => "udt"@,
        }
    }

    /// The kind that a configuration name stands for; an unknown name
    /// stands for QUIC.
    pub open spec fn of_name(name: Seq<char>) -> TransportType {
        if name == "tcp"@ {
            TransportType::TCP
        } else if name == "rtp"@ {
            TransportType::RTP
        } else if name == "udt"@ {
            TransportType::UDT
        } else {
            TransportType::QUIC
        }
    }

    /// Parses a transport name; an unknown name gives QUIC.
    pub fn from_str(s: &str) -> (kind: TransportType)
        ensures
            kind == TransportType::of_name(s@),
    {
        if str_equals(s, "tcp") {
            TransportType::TCP
        } else if str_equals(s, "rtp") {
            TransportType::RTP
        } else if str_equals(s, "udt") {
            TransportType::UDT
        } else {
            TransportType::QUIC
        }
    }

    /// The kind's configuration name.
    pub fn to_str(&self) -> (name: &'static str)
        ensures
            name@ == self.name_of(),
    {
        match self {
            TransportType::QUIC => "quic",
            TransportType::TCP => "tcp",
            TransportType::RTP => "rtp",
            TransportType::UDT => "udt",
        }
    }

    /// Reads a wire byte: 0 to 3 stand for the four kinds, any other byte is
    /// an error.
    pub fn from_byte(b: u8) -> (res: Result<TransportType, std::io::Error>)
        ensures
            res == match TransportType::of_byte(b) {
                Some(kind) => Ok::<TransportType, std::io::Error>(kind),
                None => Err::<TransportType, std::io::Error>(
                    io_error_other("transport bytes failure."@),
                ),
            },
    {
        match b {
            0u8 => Ok(TransportType::QUIC),
            1u8 => Ok(TransportType::TCP),
            2u8 => Ok(TransportType::RTP),
            3u8 => Ok(TransportType::UDT),
            _ => Err(new_io_error("transport bytes failure.")),
        }
    }

    /// The kind's wire byte.
    pub fn to_byte(&self) -> (b: u8)
        ensures
            b == self.byte_of(),
    {
        match self {
            TransportType::QUIC => 0u8,
            TransportType::TCP => 1u8,
            TransportType::RTP => 2u8,
            TransportType::UDT => 3u8,
        }
    }
}

/// `tokio::sync::mpsc::Sender`, the sending end of a channel, carried
/// through as a value that nothing looks into.
#[verifier::external_type_specification]
#[verifier::external_body]
#[verifier::reject_recursive_types(T)]
pub struct ExSender<T>(tokio::sync::mpsc::Sender<T>);

/// `tokio::sync::mpsc::Receiver`, the receiving end of a channel, carried
/// through as a value that nothing looks into.
#[verifier::external_type_specification]
#[verifier::external_body]
#[verifier::reject_recursive_types(T)]
pub struct ExReceiver<T>(tokio::sync::mpsc::Receiver<T>);

/// One transport stream: its kind and the two ends it is written to and
/// read from.
#[derive(Debug)]
pub struct TransportStream {
    transport: TransportType,
    sender: tokio::sync::mpsc::Sender<Vec<u8>>,
    receiver: tokio::sync::mpsc::Receiver<Vec<u8>>,
}

impl Eq for TransportStream {}

impl PartialEq for TransportStream {
    fn eq(&self, other: &TransportStream) -> (r: bool) {
        self.transport == other.transport
    }
}

impl vstd::std_specs::cmp::PartialEqSpecImpl for TransportStream {
    open spec fn obeys_eq_spec() -> bool {
        true
    }

    /// Two streams are equal when they are of the same kind.
    open spec fn eq_spec(&self, other: &TransportStream) -> bool {
        self.kind() == other.kind()
    }
}

impl TransportStream {
    /// The stream's transport kind.
    pub closed spec fn kind(&self) -> TransportType {
        self.transport
    }

    /// The end the stream is written to.
    pub closed spec fn sending(&self) -> tokio::sync::mpsc::Sender<Vec<u8>> {
        self.sender
    }

    /// The end the stream is read from.
    pub closed spec fn receiving(&self) -> tokio::sync::mpsc::Receiver<Vec<u8>> {
        self.receiver
    }

    /// A stream of the given kind with the given ends.
    pub fn new(
        transport: TransportType,
        sender: tokio::sync::mpsc::Sender<Vec<u8>>,
        receiver: tokio::sync::mpsc::Receiver<Vec<u8>>,
    ) -> (stream: TransportStream)
        ensures
            stream.kind() == transport,
            stream.sending() == sender,
            stream.receiving() == receiver,
    {
        TransportStream { transport, sender, receiver }
    }

    /// The stream's transport kind.
    pub fn transport(&self) -> (kind: TransportType)
        ensures
            kind == self.kind(),
    {
        self.transport
    }

    /// Takes the stream apart into its two ends.
    pub fn channel(self) -> (ends: (
        tokio::sync::mpsc::Sender<Vec<u8>>,
        tokio::sync::mpsc::Receiver<Vec<u8>>,
    ))
        ensures
            ends.0 == self.sending(),
            ends.1 == self.receiving(),
    {
        (self.sender, self.receiver)
    }
}

} // verus!
