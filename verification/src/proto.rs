//! Wire primitives of the AUKS protocol: network-order integers, raw bytes and
//! typed messages.
use vstd::prelude::*;
use vstd::slice::{slice_subrange, slice_to_vec};

verus! {

/// Maximum input accepted by a reader in one data field.
pub const MAX_DATA_LENGTH: usize = 64 * 1024 * 1024;

/// Maximum principal length used by the credential wire format.
pub const PRINCIPAL_MAX_LENGTH: usize = 128;

/// Maximum serialized credential payload length.
pub const CRED_DATA_MAX_LENGTH: usize = 32768;

/// Errors returned while encoding or decoding protocol data.
#[derive(Debug, Clone, Copy, PartialEq, Eq, Structural)]
pub enum ProtoError {
    /// The input ended before the requested number of bytes was available.
    Truncated {
        /// Number of bytes requested.
        needed: usize,
        /// Number of bytes available.
        available: usize,
    },
    /// The message type number is not defined by the protocol.
    UnknownType(i32),
    /// A requested field exceeds the configured input limit.
    TooLarge {
        /// Number of bytes requested.
        requested: usize,
        /// Maximum permitted bytes.
        maximum: usize,
    },
}

/// AUKS request and reply type.
#[derive(Debug, Clone, Copy, PartialEq, Eq, Structural)]
pub enum MessageType {
    /// Ping request.
    PingRequest,
    /// List request.
    ListRequest,
    /// Add request.
    AddRequest,
    /// Get request.
    GetRequest,
    /// Remove request.
    RemoveRequest,
    /// Close request.
    CloseRequest,
    /// Dump request.
    DumpRequest,
    /// Credential dump request.
    CredDumpRequest,
    /// Ping reply.
    PingReply,
    /// Error reply.
    ErrorReply,
    /// List reply.
    ListReply,
    /// Add reply.
    AddReply,
    /// Get reply.
    GetReply,
    /// Remove reply.
    RemoveReply,
    /// Dump reply.
    DumpReply,
}

impl MessageType {
    /// The number that stands for this type on the wire.
    pub open spec fn code(self) -> i32 {
        match self {
            MessageType::PingRequest => 0,
            MessageType::ListRequest => 1,
            MessageType::AddRequest => 2,
            MessageType::GetRequest => 3,
            MessageType::RemoveRequest => 4,
            MessageType::CloseRequest => 5,
            MessageType::DumpRequest => 6,
            MessageType::CredDumpRequest => 7,
            MessageType::PingReply => 20,
            MessageType::ErrorReply => 21,
            MessageType::ListReply => 22,
            MessageType::AddReply => 23,
            MessageType::GetReply => 24,
            MessageType::RemoveReply => 25,
            MessageType::DumpReply => 26,
        }
    }

    /// The type that a wire number stands for, if the protocol defines one.
    pub open spec fn of_code(code: i32) -> Option<MessageType> {
        match code {
            0 => Some(MessageType::PingRequest),
            1 => Some(MessageType::ListRequest),
            2 => Some(MessageType::AddRequest),
            3 => Some(MessageType::GetRequest),
            4 => Some(MessageType::RemoveRequest),
            5 => Some(MessageType::CloseRequest),
            6 => Some(MessageType::DumpRequest),
            7 => Some(MessageType::CredDumpRequest),
            20 => Some(MessageType::PingReply),
            21 => Some(MessageType::ErrorReply),
            22 => Some(MessageType::ListReply),
            23 => Some(MessageType::AddReply),
            24 => Some(MessageType::GetReply),
            25 => Some(MessageType::RemoveReply),
            26 => Some(MessageType::DumpReply),
            _ => None,
        }
    }
}

impl TryFrom<i32> for MessageType {
    type Error = ProtoError;

    fn try_from(value: i32) -> (ty: Result<Self, ProtoError>) {
        let ty = match value {
            0 => MessageType::PingRequest,
            1 => MessageType::ListRequest,
            2 => MessageType::AddRequest,
            3 => MessageType::GetRequest,
            4 => MessageType::RemoveRequest,
            5 => MessageType::CloseRequest,
            6 => MessageType::DumpRequest,
            7 => MessageType::CredDumpRequest,
            20 => MessageType::PingReply,
            21 => MessageType::ErrorReply,
            22 => MessageType::ListReply,
            23 => MessageType::AddReply,
            24 => MessageType::GetReply,
            25 => MessageType::RemoveReply,
            26 => MessageType::DumpReply,
            other => return Err(ProtoError::UnknownType(other)),
        };
        Ok(ty)
    }
}

impl vstd::std_specs::convert::TryFromSpecImpl<i32> for MessageType {
    open spec fn obeys_try_from_spec() -> bool {
        true
    }

    open spec fn try_from_spec(value: i32) -> Result<Self, ProtoError> {
        match MessageType::of_code(value) {
            Some(ty) => Ok(ty),
            None => Err(ProtoError::UnknownType(value)),
        }
    }
}

impl From<MessageType> for i32 {
    fn from(value: MessageType) -> (code: i32) {
        match value {
            MessageType::PingRequest => 0,
            MessageType::ListRequest => 1,
            MessageType::AddRequest => 2,
            MessageType::GetRequest => 3,
            MessageType::RemoveRequest => 4,
            MessageType::CloseRequest => 5,
            MessageType::DumpRequest => 6,
            MessageType::CredDumpRequest => 7,
            MessageType::PingReply => 20,
            MessageType::ErrorReply => 21,
            MessageType::ListReply => 22,
            MessageType::AddReply => 23,
            MessageType::GetReply => 24,
            MessageType::RemoveReply => 25,
            MessageType::DumpReply => 26,
        }
    }
}

impl vstd::std_specs::convert::FromSpecImpl<MessageType> for i32 {
    open spec fn obeys_from_spec() -> bool {
        true
    }

    open spec fn from_spec(value: MessageType) -> i32 {
        value.code()
    }
}

/// The four bytes of `word`, most significant first.
pub open spec fn word_bytes(word: int) -> Seq<u8> {
    seq![
        (word / 0x100_0000) as u8,
        ((word / 0x1_0000) % 0x100) as u8,
        ((word / 0x100) % 0x100) as u8,
        (word % 0x100) as u8,
    ]
}

/// The number that the four bytes of `bytes` from `at` on hold, most
/// significant first.
pub open spec fn word_at(bytes: Seq<u8>, at: int) -> int {
    bytes[at] * 0x100_0000 + bytes[at + 1] * 0x1_0000 + bytes[at + 2] * 0x100 + bytes[at + 3]
}

/// The two's complement word of a signed integer.
pub open spec fn word_of_int(value: i32) -> int {
    if value < 0 {
        value + 0x1_0000_0000
    } else {
        value as int
    }
}

/// The signed integer that a two's complement word stands for.
pub open spec fn int_of_word(word: int) -> i32 {
    if word < 0x8000_0000 {
        word as i32
    } else {
        (word - 0x1_0000_0000) as i32
    }
}

/// How a signed integer is written.
pub open spec fn int_bytes(value: i32) -> Seq<u8> {
    word_bytes(word_of_int(value))
}

/// How a user ID is written.
pub open spec fn uid_bytes(value: u32) -> Seq<u8> {
    word_bytes(value as int)
}

/// The signed integer written in `bytes` from `at` on.
pub open spec fn int_at(bytes: Seq<u8>, at: int) -> i32 {
    int_of_word(word_at(bytes, at))
}

/// The user ID written in `bytes` from `at` on.
pub open spec fn uid_at(bytes: Seq<u8>, at: int) -> u32 {
    word_at(bytes, at) as u32
}

/// Joining byte strings is associative.
pub(crate) proof fn lemma_regroup(a: Seq<u8>, b: Seq<u8>, c: Seq<u8>)
    ensures
        (a + b) + c == a + (b + c),
{
    assert((a + b) + c =~= a + (b + c));
}

/// Nothing in front changes nothing.
pub(crate) proof fn lemma_no_front(a: Seq<u8>)
    ensures
        Seq::<u8>::empty() + a == a,
{
    assert(Seq::<u8>::empty() + a =~= a);
}

/// The middle one of three byte strings.
pub(crate) proof fn lemma_middle(a: Seq<u8>, b: Seq<u8>, c: Seq<u8>)
    ensures
        ((a + b) + c).subrange(a.len() as int, (a.len() + b.len()) as int) == b,
{
    assert(((a + b) + c).subrange(a.len() as int, (a.len() + b.len()) as int) =~= b);
}

/// The second one of two byte strings.
pub(crate) proof fn lemma_behind(a: Seq<u8>, b: Seq<u8>)
    ensures
        (a + b).skip(a.len() as int) == b,
{
    assert((a + b).skip(a.len() as int) =~= b);
}

/// Four bytes hold a number that fits in a word, and writing a word then
/// reading it gives it back.
pub proof fn lemma_word_round_trip(word: int)
    requires
        0 <= word < 0x1_0000_0000,
    ensures
        word_bytes(word).len() == 4,
        word_at(word_bytes(word), 0) == word,
{
    let q = word / 0x100;
    let r = q / 0x100;
    assert(word / 0x1_0000 == r);
    assert(word / 0x100_0000 == r / 0x100);
}

/// A word that was read is written back as the four bytes it was read from.
pub proof fn lemma_word_at_bytes(bytes: Seq<u8>, at: int)
    requires
        0 <= at,
        at + 4 <= bytes.len(),
    ensures
        0 <= word_at(bytes, at) < 0x1_0000_0000,
        word_bytes(word_at(bytes, at)) == bytes.subrange(at, at + 4),
{
    let word = word_at(bytes, at);
    let q = bytes[at] * 0x1_0000 + bytes[at + 1] * 0x100 + bytes[at + 2];
    let r = bytes[at] * 0x100 + bytes[at + 1];
    assert(word / 0x100 == q && word % 0x100 == bytes[at + 3]);
    assert(q / 0x100 == r && q % 0x100 == bytes[at + 2]);
    assert(word / 0x1_0000 == r);
    assert(word / 0x100_0000 == bytes[at]);
    assert(r % 0x100 == bytes[at + 1]);
    assert(word_bytes(word) =~= bytes.subrange(at, at + 4));
}

/// A signed integer survives being written and read, wherever it stands.
pub proof fn lemma_int_round_trip(value: i32, before: Seq<u8>, after: Seq<u8>)
    ensures
        int_at(before + int_bytes(value) + after, before.len() as int) == value,
        int_bytes(value).len() == 4,
{
    lemma_word_round_trip(word_of_int(value));
    let bytes = before + int_bytes(value) + after;
    let at = before.len() as int;
    assert(word_at(bytes, at) == word_at(int_bytes(value), 0));
}

/// A user ID survives being written and read, wherever it stands: the signed
/// integer on the wire loses nothing.
pub proof fn lemma_uid_round_trip(value: u32, before: Seq<u8>, after: Seq<u8>)
    ensures
        uid_at(before + uid_bytes(value) + after, before.len() as int) == value,
        uid_bytes(value).len() == 4,
{
    lemma_word_round_trip(value as int);
    let bytes = before + uid_bytes(value) + after;
    let at = before.len() as int;
    assert(word_at(bytes, at) == word_at(uid_bytes(value), 0));
}

/// A signed integer that was read is written back as the bytes it was read
/// from.
pub proof fn lemma_int_at_bytes(bytes: Seq<u8>, at: int)
    requires
        0 <= at,
        at + 4 <= bytes.len(),
    ensures
        int_bytes(int_at(bytes, at)) == bytes.subrange(at, at + 4),
{
    lemma_word_at_bytes(bytes, at);
}

/// Every message type survives being written as a number and read back.
pub proof fn lemma_code_round_trip(ty: MessageType)
    ensures
        MessageType::of_code(ty.code()) == Some(ty),
{
}

/// A number that names a message type is the number of that type.
pub proof fn lemma_of_code_round_trip(code: i32)
    ensures
        MessageType::of_code(code) matches Some(ty) ==> ty.code() == code,
{
}

/// A writer for the AUKS network byte order primitives.
#[derive(Debug, PartialEq, Eq)]
pub struct Writer(Vec<u8>);

impl View for Writer {
    type V = Seq<u8>;

    closed spec fn view(&self) -> Seq<u8> {
        self.0@
    }
}

impl Clone for Writer {
    fn clone(&self) -> (copy: Self)
        ensures
            copy@ == self@,
    {
        Writer(slice_to_vec(self.0.as_slice()))
    }
}

impl Default for Writer {
    fn default() -> (writer: Self)
        ensures
            writer@ == Seq::<u8>::empty(),
    {
        Writer(Vec::new())
    }
}

impl Writer {
    /// Creates an empty writer.
    pub fn new() -> (writer: Self)
        ensures
            writer@ == Seq::<u8>::empty(),
    {
        Writer(Vec::new())
    }

    /// Appends a signed 32-bit integer in big-endian order.
    pub fn pack_int(&mut self, value: i32)
        ensures
            final(self)@ == old(self)@ + int_bytes(value),
    {
        let word: u32 = value as u32;
        assert(value < 0 ==> word == value + 0x1_0000_0000) by (bit_vector)
            requires
                word == value as u32,
        ;
        assert(value >= 0 ==> word == value) by (bit_vector)
            requires
                word == value as u32,
        ;
        self.0.push((word / 0x100_0000) as u8);
        self.0.push(((word / 0x1_0000) % 0x100) as u8);
        self.0.push(((word / 0x100) % 0x100) as u8);
        self.0.push((word % 0x100) as u8);
        assert(self@ =~= old(self)@ + int_bytes(value));
    }

    /// Appends a UID, as the signed integer with the same bits.
    pub fn pack_uid(&mut self, value: u32)
        ensures
            final(self)@ == old(self)@ + uid_bytes(value),
    {
        let signed: i32 = value as i32;
        assert(value < 0x8000_0000 ==> signed == value) by (bit_vector)
            requires
                signed == value as i32,
        ;
        assert(value >= 0x8000_0000 ==> signed == value - 0x1_0000_0000) by (bit_vector)
            requires
                signed == value as i32,
        ;
        self.pack_int(signed);
    }

    /// Appends raw bytes without a length prefix.
    pub fn pack_data(&mut self, data: &[u8])
        ensures
            final(self)@ == old(self)@ + data@,
    {
        self.0.extend_from_slice(data);
        assert(self@ =~= old(self)@ + data@);
    }

    /// Returns the encoded bytes.
    pub fn into_inner(self) -> (bytes: Vec<u8>)
        ensures
            bytes@ == self@,
    {
        self.0
    }
}

/// A reader for AUKS network byte order primitives.
///
/// Its view is the part of the input that has not been read yet.
#[derive(Debug, Clone, Copy)]
pub struct Reader<'a> {
    buf: &'a [u8],
    pos: usize,
}

impl<'a> View for Reader<'a> {
    type V = Seq<u8>;

    closed spec fn view(&self) -> Seq<u8> {
        self.buf@.skip(self.pos as int)
    }
}

/// The error of a read of `len` bytes from an input that is shorter.
pub open spec fn truncated(len: int, input: Seq<u8>) -> ProtoError {
    ProtoError::Truncated { needed: len as usize, available: input.len() as usize }
}

impl<'a> Reader<'a> {
    #[verifier::type_invariant]
    spec fn in_bounds(&self) -> bool {
        self.pos <= self.buf@.len()
    }

    /// Creates a reader over a byte slice.
    pub fn new(buf: &'a [u8]) -> (reader: Self)
        ensures
            reader@ == buf@,
    {
        let reader = Reader { buf, pos: 0 };
        assert(reader@ =~= buf@);
        reader
    }

    /// Reads a signed 32-bit integer in big-endian order.
    pub fn unpack_int(&mut self) -> (value: Result<i32, ProtoError>)
        ensures
            old(self)@.len() < 4 ==> value == Err::<i32, _>(truncated(4, old(self)@)) && final(self)@
                == old(self)@,
            old(self)@.len() >= 4 ==> value == Ok::<_, ProtoError>(int_at(old(self)@, 0))
                && final(self)@ == old(self)@.skip(4),
    {
        let bytes = match self.take(4) {
            Ok(bytes) => bytes,
            Err(error) => return Err(error),
        };
        let word: u32 = (bytes[0] as u32) * 0x100_0000 + (bytes[1] as u32) * 0x1_0000
            + (bytes[2] as u32) * 0x100 + (bytes[3] as u32);
        let value: i32 = word as i32;
        assert(word < 0x8000_0000 ==> value == word) by (bit_vector)
            requires
                value == word as i32,
        ;
        assert(word >= 0x8000_0000 ==> value == word - 0x1_0000_0000) by (bit_vector)
            requires
                value == word as i32,
        ;
        Ok(value)
    }

    /// Reads a UID from the signed integer with the same bits.
    pub fn unpack_uid(&mut self) -> (value: Result<u32, ProtoError>)
        ensures
            old(self)@.len() < 4 ==> value == Err::<u32, _>(truncated(4, old(self)@)) && final(self)@
                == old(self)@,
            old(self)@.len() >= 4 ==> value == Ok::<_, ProtoError>(uid_at(old(self)@, 0))
                && final(self)@ == old(self)@.skip(4),
    {
        let signed: i32 = match self.unpack_int() {
            Ok(signed) => signed,
            Err(error) => return Err(error),
        };
        let value: u32 = signed as u32;
        assert(signed < 0 ==> value == signed + 0x1_0000_0000) by (bit_vector)
            requires
                value == signed as u32,
        ;
        assert(signed >= 0 ==> value == signed) by (bit_vector)
            requires
                value == signed as u32,
        ;
        proof {
            lemma_word_at_bytes(old(self)@, 0);
        }
        Ok(value)
    }

    /// Reads a borrowed raw byte slice.
    pub fn unpack_data(&mut self, len: usize) -> (data: Result<&'a [u8], ProtoError>)
        ensures
            len > MAX_DATA_LENGTH ==> data == Err::<&'a [u8], _>(
                ProtoError::TooLarge { requested: len, maximum: MAX_DATA_LENGTH },
            ) && final(self)@ == old(self)@,
            len <= MAX_DATA_LENGTH && len > old(self)@.len() ==> data == Err::<&'a [u8], _>(
                truncated(len as int, old(self)@),
            ) && final(self)@ == old(self)@,
            len <= MAX_DATA_LENGTH && len <= old(self)@.len() ==> data is Ok && data->Ok_0@
                == old(self)@.take(len as int) && final(self)@ == old(self)@.skip(len as int),
    {
        if len > MAX_DATA_LENGTH {
            return Err(ProtoError::TooLarge { requested: len, maximum: MAX_DATA_LENGTH });
        }
        self.take(len)
    }

    /// Returns the unread portion of the input.
    pub fn remaining(&self) -> (len: usize)
        ensures
            len == self@.len(),
    {
        proof {
            use_type_invariant(self);
        }
        self.buf.len() - self.pos
    }

    fn take(&mut self, len: usize) -> (data: Result<&'a [u8], ProtoError>)
        ensures
            len > old(self)@.len() ==> data == Err::<&'a [u8], _>(
                truncated(len as int, old(self)@),
            ) && final(self)@ == old(self)@,
            len <= old(self)@.len() ==> data is Ok && data->Ok_0@ == old(self)@.take(len as int)
                && final(self)@ == old(self)@.skip(len as int),
    {
        proof {
            use_type_invariant(&*self);
        }
        let available: usize = self.remaining();
        if len > available {
            return Err(ProtoError::Truncated { needed: len, available });
        }
        let start: usize = self.pos;
        assert(self.buf@.len() == self.buf.len());
        self.pos = start + len;
        let data = slice_subrange(self.buf, start, start + len);
        assert(data@ =~= old(self)@.take(len as int));
        assert(self@ =~= old(self)@.skip(len as int));
        Ok(data)
    }
}

/// A decoded AUKS message.
#[derive(Debug, PartialEq, Eq)]
pub struct Message {
    /// The message type.
    pub ty: MessageType,
    /// The encoded message body after the type integer.
    pub body: Vec<u8>,
}

/// A message as a value: its type and its body.
pub struct MessageView {
    pub ty: MessageType,
    pub body: Seq<u8>,
}

impl View for Message {
    type V = MessageView;

    open spec fn view(&self) -> MessageView {
        MessageView { ty: self.ty, body: self.body@ }
    }
}

impl MessageView {
    /// The bytes of a message on the wire.
    pub open spec fn encoding(self) -> Seq<u8> {
        int_bytes(self.ty.code()) + self.body
    }
}

/// What a wire record decodes to.
pub open spec fn decoded_message(data: Seq<u8>) -> Result<MessageView, ProtoError> {
    if data.len() < 4 {
        Err(truncated(4, data))
    } else {
        match MessageType::of_code(int_at(data, 0)) {
            None => Err(ProtoError::UnknownType(int_at(data, 0))),
            Some(ty) => if data.len() - 4 > MAX_DATA_LENGTH {
                Err(
                    ProtoError::TooLarge {
                        requested: (data.len() - 4) as usize,
                        maximum: MAX_DATA_LENGTH,
                    },
                )
            } else {
                Ok(MessageView { ty, body: data.skip(4) })
            },
        }
    }
}

/// A length-prefixed data field. The prefix is the length's low 32 bits.
pub open spec fn data_field(data: Seq<u8>) -> Seq<u8> {
    word_bytes((data.len() % 0x1_0000_0000) as int) + data
}

impl Clone for Message {
    fn clone(&self) -> (copy: Self)
        ensures
            copy@ == self@,
    {
        Message { ty: self.ty, body: slice_to_vec(self.body.as_slice()) }
    }
}

impl Message {
    /// Creates a message with no body.
    pub fn new(ty: MessageType) -> (message: Self)
        ensures
            message@ == (MessageView { ty, body: Seq::<u8>::empty() }),
    {
        Message { ty, body: Vec::new() }
    }

    /// Creates a message body containing a big-endian length and raw data.
    pub fn with_data(ty: MessageType, data: &[u8]) -> (message: Self)
        ensures
            message@ == (MessageView { ty, body: data_field(data@) }),
    {
        let length: u64 = data.len() as u64;
        let word: u32 = (length % 0x1_0000_0000) as u32;
        let mut writer = Writer::new();
        writer.pack_uid(word);
        writer.pack_data(data);
        let body = writer.into_inner();
        assert(body@ =~= data_field(data@));
        Message { ty, body }
    }

    /// Encodes the type followed by the already encoded body.
    pub fn encode(&self) -> (bytes: Vec<u8>)
        ensures
            bytes@ == self@.encoding(),
    {
        let mut writer = Writer::new();
        writer.pack_int(i32::from(self.ty));
        writer.pack_data(self.body.as_slice());
        let bytes = writer.into_inner();
        assert(bytes@ =~= self@.encoding());
        bytes
    }

    /// Decodes a message from its wire representation.
    pub fn decode(data: &[u8]) -> (message: Result<Self, ProtoError>)
        ensures
            match decoded_message(data@) {
                Ok(expected) => message is Ok && message->Ok_0@ == expected,
                Err(error) => message == Err::<Message, _>(error),
            },
    {
        let mut reader = Reader::new(data);
        let code: i32 = match reader.unpack_int() {
            Ok(code) => code,
            Err(error) => return Err(error),
        };
        let ty = match MessageType::try_from(code) {
            Ok(ty) => ty,
            Err(error) => return Err(error),
        };
        let length: usize = reader.remaining();
        let body = match reader.unpack_data(length) {
            Ok(body) => body,
            Err(error) => return Err(error),
        };
        assert(body@ =~= data@.skip(4));
        Ok(Message { ty, body: slice_to_vec(body) })
    }

    /// Returns a mutable body writer.
    pub fn writer(&mut self) -> (body: &mut Vec<u8>)
        ensures
            *body == old(self).body,
            *final(self) == (Message { ty: old(self).ty, body: *final(body) }),
    {
        &mut self.body
    }

    /// Returns a reader over the encoded body.
    pub fn reader(&self) -> (reader: Reader<'_>)
        ensures
            reader@ == self.body@,
    {
        Reader::new(self.body.as_slice())
    }
}

/// Decoding undoes encoding, for every message whose body a reader accepts in
/// one field.
pub proof fn law_decode_undoes_encode(message: MessageView)
    requires
        message.body.len() <= MAX_DATA_LENGTH,
    ensures
        decoded_message(message.encoding()) == Ok::<_, ProtoError>(message),
{
    let data = message.encoding();
    lemma_int_round_trip(message.ty.code(), Seq::empty(), message.body);
    assert(Seq::<u8>::empty() + int_bytes(message.ty.code()) + message.body =~= data);
    lemma_code_round_trip(message.ty);
    assert(data.skip(4) =~= message.body);
}

/// Encoding undoes decoding: a record that is accepted is the encoding of the
/// message that it decodes to, so no two records decode to one message.
pub proof fn law_encode_undoes_decode(data: Seq<u8>)
    ensures
        decoded_message(data) matches Ok(message) ==> message.encoding() == data,
{
    if decoded_message(data) is Ok {
        lemma_int_at_bytes(data, 0);
        lemma_of_code_round_trip(int_at(data, 0));
        assert(data.subrange(0, 4) + data.skip(4) =~= data);
    }
}

/// The number that four bytes make, most significant first.
pub open spec fn big_endian(b0: u8, b1: u8, b2: u8, b3: u8) -> int {
    b0 * 16777216 + b1 * 65536 + b2 * 256 + b3
}

/// Integers and user IDs take four bytes, most significant first. A negative
/// integer is written as the number that is larger by two to the power of 32.
pub proof fn law_integers_are_big_endian(value: i32, uid: u32)
    ensures
        int_bytes(value).len() == 4,
        big_endian(int_bytes(value)[0], int_bytes(value)[1], int_bytes(value)[2], int_bytes(value)[3])
            == (if value < 0 {
            value + 4294967296
        } else {
            value as int
        }),
        uid_bytes(uid).len() == 4,
        big_endian(uid_bytes(uid)[0], uid_bytes(uid)[1], uid_bytes(uid)[2], uid_bytes(uid)[3]) == uid,
{
    lemma_word_round_trip(word_of_int(value));
    lemma_word_round_trip(uid as int);
}

/// What is read from four bytes is the number that they make, most significant
/// first. As an integer, the upper half of the numbers is negative.
pub proof fn law_integers_are_read_big_endian(bytes: Seq<u8>, at: int)
    requires
        0 <= at,
        at + 4 <= bytes.len(),
    ensures
        ({
            let number = big_endian(bytes[at], bytes[at + 1], bytes[at + 2], bytes[at + 3]);
            &&& uid_at(bytes, at) == number
            &&& int_at(bytes, at) == (if number < 2147483648 {
                number
            } else {
                number - 4294967296
            })
        }),
{
    lemma_word_at_bytes(bytes, at);
}

/// A message begins with three zero bytes and the number of its type: requests
/// are numbered from 0 on and replies from 20 on. Its body follows as it is.
pub proof fn law_message_layout(message: MessageView)
    ensures
        message.encoding().len() == message.body.len() + 4,
        message.encoding()[0] == 0,
        message.encoding()[1] == 0,
        message.encoding()[2] == 0,
        message.encoding()[3] == (match message.ty {
            MessageType::PingRequest => 0u8,
            MessageType::ListRequest => 1u8,
            MessageType::AddRequest => 2u8,
            MessageType::GetRequest => 3u8,
            MessageType::RemoveRequest => 4u8,
            MessageType::CloseRequest => 5u8,
            MessageType::DumpRequest => 6u8,
            MessageType::CredDumpRequest => 7u8,
            MessageType::PingReply => 20u8,
            MessageType::ErrorReply => 21u8,
            MessageType::ListReply => 22u8,
            MessageType::AddReply => 23u8,
            MessageType::GetReply => 24u8,
            MessageType::RemoveReply => 25u8,
            MessageType::DumpReply => 26u8,
        }),
        message.encoding().skip(4) == message.body,
{
    let code = message.ty.code();
    assert(0 <= code < 256);
    assert(int_bytes(code) =~= seq![0u8, 0u8, 0u8, code as u8]);
    assert(message.encoding().skip(4) =~= message.body);
}

/// A record is refused exactly where it is shorter than its type number, where
/// no type has that number, or where its body is longer than 64 MiB; and the
/// refusal says which.
pub proof fn law_refused_records(data: Seq<u8>)
    requires
        data.len() <= usize::MAX,
    ensures
        data.len() < 4 ==> decoded_message(data) == Err::<MessageView, _>(
            ProtoError::Truncated { needed: 4, available: data.len() as usize },
        ),
        data.len() >= 4 ==> {
            let number = big_endian(data[0], data[1], data[2], data[3]);
            let known = 0 <= number <= 7 || 20 <= number <= 26;
            &&& !known ==> (decoded_message(data) matches Err(ProtoError::UnknownType(code))
                && code == (if number < 2147483648 {
                number
            } else {
                number - 4294967296
            }))
            &&& known && data.len() > 67108868 ==> decoded_message(data) == Err::<MessageView, _>(
                ProtoError::TooLarge {
                    requested: (data.len() - 4) as usize,
                    maximum: 67108864,
                },
            )
            &&& known && data.len() <= 67108868 ==> (decoded_message(data) matches Ok(message)
                && message.body == data.skip(4))
        },
{
    if data.len() >= 4 {
        law_integers_are_read_big_endian(data, 0);
    }
}

/// A data field is the length of the data in four bytes, most significant
/// first, and the data itself.
pub proof fn law_data_field_layout(data: Seq<u8>)
    requires
        data.len() < 4294967296,
    ensures
        data_field(data).len() == data.len() + 4,
        big_endian(data_field(data)[0], data_field(data)[1], data_field(data)[2], data_field(data)[3])
            == data.len(),
        data_field(data).skip(4) == data,
{
    lemma_word_round_trip(data.len() as int);
    assert(data_field(data).skip(4) =~= data);
}

/// A read that goes beyond the input says how much it needed and how much was
/// there.
pub proof fn law_truncated_reads(len: usize, input: Seq<u8>)
    requires
        input.len() < len,
    ensures
        truncated(len as int, input) == (ProtoError::Truncated {
            needed: len,
            available: input.len() as usize,
        }),
        PRINCIPAL_MAX_LENGTH == 128,
        CRED_DATA_MAX_LENGTH == 32768,
        MAX_DATA_LENGTH == 67108864,
{
}

} // verus!
