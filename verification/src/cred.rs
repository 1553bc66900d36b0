//! Serialized AUKS credentials.
use crate::proto::{self, ProtoError, Reader, Writer, CRED_DATA_MAX_LENGTH, PRINCIPAL_MAX_LENGTH};
use crate::text::{self, nul_position, utf8_text, Utf8Error};
use vstd::prelude::*;
use vstd::slice::{slice_subrange, slice_to_vec};
use vstd::utf8::*;

verus! {

/// Errors returned while encoding or decoding credentials.
#[derive(Debug, Clone, Copy, PartialEq, Eq, Structural)]
pub enum CredError {
    /// The principal contains a NUL byte or exceeds the wire limit.
    InvalidPrincipal,
    /// The principal bytes are not valid UTF-8.
    InvalidPrincipalUtf8(Utf8Error),
    /// The credential blob exceeds the wire limit.
    DataTooLarge(usize),
    /// The wire data is malformed.
    Protocol(ProtoError),
    /// The credential max length is invalid.
    InvalidMaxLength(i32),
    /// The credential length exceeds its max length.
    InvalidLength {
        /// Decoded credential length.
        length: usize,
        /// Decoded maximum length.
        max_length: usize,
    },
    /// A boolean field has an invalid encoded value.
    InvalidBoolean(i32),
    /// The message has an unexpected type.
    UnexpectedMessageType,
}

/// Credential metadata serialized by AUKS.
#[derive(Debug, PartialEq, Eq)]
pub struct CredInfo {
    /// Kerberos principal name.
    pub principal: String,
    /// Unix user ID.
    pub uid: u32,
    /// Credential start time.
    pub starttime: i32,
    /// Credential end time.
    pub endtime: i32,
    /// Credential renewal deadline.
    pub renew_till: i32,
    /// Whether the credential is addressless.
    pub addressless: bool,
    /// Whether the credential crossed a realm boundary.
    pub crossrealm: bool,
}

/// Credential metadata as a value.
pub struct CredInfoView {
    pub principal: Seq<char>,
    pub uid: u32,
    pub starttime: i32,
    pub endtime: i32,
    pub renew_till: i32,
    pub addressless: bool,
    pub crossrealm: bool,
}

impl View for CredInfo {
    type V = CredInfoView;

    open spec fn view(&self) -> CredInfoView {
        CredInfoView {
            principal: self.principal@,
            uid: self.uid,
            starttime: self.starttime,
            endtime: self.endtime,
            renew_till: self.renew_till,
            addressless: self.addressless,
            crossrealm: self.crossrealm,
        }
    }
}

impl Clone for CredInfo {
    fn clone(&self) -> (copy: Self)
        ensures
            copy@ == self@,
    {
        CredInfo {
            principal: self.principal.clone(),
            uid: self.uid,
            starttime: self.starttime,
            endtime: self.endtime,
            renew_till: self.renew_till,
            addressless: self.addressless,
            crossrealm: self.crossrealm,
        }
    }
}

/// A serialized Kerberos credential and its metadata.
#[derive(Debug, PartialEq, Eq)]
pub struct Cred {
    /// Credential metadata.
    pub info: CredInfo,
    /// Serialized credential bytes.
    pub data: Vec<u8>,
    /// AUKS status code.
    pub status: i32,
}

/// A credential as a value.
pub struct CredView {
    pub info: CredInfoView,
    pub data: Seq<u8>,
    pub status: i32,
}

impl View for Cred {
    type V = CredView;

    open spec fn view(&self) -> CredView {
        CredView { info: self.info@, data: self.data@, status: self.status }
    }
}

impl Clone for Cred {
    fn clone(&self) -> (copy: Self)
        ensures
            copy@ == self@,
    {
        Cred {
            info: self.info.clone(),
            data: slice_to_vec(self.data.as_slice()),
            status: self.status,
        }
    }
}

/// `bytes` filled up with zeros to `len` bytes.
pub open spec fn padded(bytes: Seq<u8>, len: int) -> Seq<u8> {
    bytes + Seq::new((len - bytes.len()) as nat, |i: int| 0u8)
}

/// The integer that stands for a flag.
pub open spec fn flag_int(flag: bool) -> i32 {
    if flag {
        1
    } else {
        0
    }
}

/// Length of the principal field: the longest principal and its terminator.
pub open spec fn principal_field_len() -> int {
    PRINCIPAL_MAX_LENGTH + 1
}

/// Length of every packed credential.
pub open spec fn packed_len() -> int {
    4 + principal_field_len() + 4 * 8 + CRED_DATA_MAX_LENGTH + 4
}

impl CredView {
    /// Why the credential cannot be packed, if it cannot.
    pub open spec fn pack_error(self) -> Option<CredError> {
        let principal = encode_utf8(self.info.principal);
        if principal.len() > PRINCIPAL_MAX_LENGTH || principal.contains(0u8) {
            Some(CredError::InvalidPrincipal)
        } else if self.data.len() > CRED_DATA_MAX_LENGTH {
            Some(CredError::DataTooLarge(self.data.len() as usize))
        } else {
            None
        }
    }

    /// The metadata part of the wire layout: everything before the payload.
    pub open spec fn header(self) -> Seq<u8> {
        proto::int_bytes(principal_field_len() as i32) + padded(
            encode_utf8(self.info.principal),
            principal_field_len(),
        ) + proto::uid_bytes(self.info.uid) + proto::int_bytes(self.info.starttime) + proto::int_bytes(self.info.endtime)
            + proto::int_bytes(self.info.renew_till) + proto::int_bytes(flag_int(self.info.addressless))
            + proto::int_bytes(flag_int(self.info.crossrealm)) + proto::int_bytes(CRED_DATA_MAX_LENGTH as i32)
            + proto::int_bytes(self.data.len() as i32)
    }

    /// The wire layout of the credential.
    pub open spec fn packed(self) -> Seq<u8> {
        self.header() + padded(self.data, CRED_DATA_MAX_LENGTH as int) + proto::int_bytes(self.status)
    }
}

/// A field that ends behind the input: `len` bytes at `at`.
pub open spec fn missing(input: Seq<u8>, at: int, len: int) -> CredError {
    CredError::Protocol(
        ProtoError::Truncated { needed: len as usize, available: (input.len() - at) as usize },
    )
}

/// What unpacking the front of `input` gives, and how many bytes it reads.
///
/// The fields stand at fixed offsets up to the payload. The first one that is
/// cut off or has a value that is not accepted decides.
pub open spec fn unpacked(input: Seq<u8>) -> (Result<CredView, CredError>, int) {
    let len = input.len() as int;
    let principal = text::before_nul(input.subrange(4, 133));
    let max_length = proto::int_at(input, 157);
    let length = proto::int_at(input, 161);
    if len < 4 {
        (Err(missing(input, 0, 4)), 0)
    } else if proto::int_at(input, 0) != principal_field_len() {
        (
            Err(
                CredError::InvalidLength {
                    length: if proto::int_at(input, 0) < 0 {
                        0
                    } else {
                        proto::int_at(input, 0) as usize
                    },
                    max_length: principal_field_len() as usize,
                },
            ),
            4,
        )
    } else if len < 133 {
        (Err(missing(input, 4, principal_field_len())), 4)
    } else if !valid_utf8(principal) {
        (Err(CredError::InvalidPrincipalUtf8(text::utf8_error(principal))), 133)
    } else if len < 161 {
        let at = 133 + (len - 133) / 4 * 4;
        (Err(missing(input, at, 4)), at)
    } else if max_length < 0 || max_length > CRED_DATA_MAX_LENGTH {
        (Err(CredError::InvalidMaxLength(max_length)), 161)
    } else if len < 165 {
        (Err(missing(input, 161, 4)), 161)
    } else if length < 0 {
        (
            Err(
                CredError::InvalidLength {
                    length: usize::MAX,
                    max_length: max_length as usize,
                },
            ),
            165,
        )
    } else if length > CRED_DATA_MAX_LENGTH {
        (Err(CredError::DataTooLarge(length as usize)), 165)
    } else if length > max_length {
        (
            Err(
                CredError::InvalidLength {
                    length: length as usize,
                    max_length: max_length as usize,
                },
            ),
            165,
        )
    } else if len < 165 + max_length {
        (Err(missing(input, 165, max_length as int)), 165)
    } else if len < 169 + max_length {
        (Err(missing(input, 165 + max_length, 4)), 165 + max_length)
    } else {
        (
            Ok(
                CredView {
                    info: CredInfoView {
                        principal: decode_utf8(principal),
                        uid: proto::uid_at(input, 133),
                        starttime: proto::int_at(input, 137),
                        endtime: proto::int_at(input, 141),
                        renew_till: proto::int_at(input, 145),
                        addressless: proto::int_at(input, 149) != 0,
                        crossrealm: proto::int_at(input, 153) != 0,
                    },
                    data: input.subrange(165, 165 + length),
                    status: proto::int_at(input, 165 + max_length),
                },
            ),
            169 + max_length,
        )
    }
}

/// Reads the integer field that stands at `at` of `input`.
fn int_field(
    reader: &mut Reader<'_>,
    Ghost(input): Ghost<Seq<u8>>,
    Ghost(at): Ghost<int>,
) -> (value: Result<i32, CredError>)
    requires
        0 <= at <= input.len(),
        old(reader)@ == input.skip(at),
    ensures
        input.len() < at + 4 ==> value == Err::<i32, _>(missing(input, at, 4)) && final(reader)@
            == input.skip(at),
        input.len() >= at + 4 ==> value == Ok::<_, CredError>(proto::int_at(input, at)) && final(reader)@
            == input.skip(at + 4),
{
    proof {
        if input.len() >= at + 4 {
            assert(input.skip(at).skip(4) =~= input.skip(at + 4));
        }
    }
    match reader.unpack_int() {
        Ok(value) => Ok(value),
        Err(error) => Err(CredError::Protocol(error)),
    }
}

/// Appends `data` and as many zeros as make `len` bytes of it.
fn pack_padded(writer: &mut Writer, data: &[u8], len: usize)
    requires
        data@.len() <= len,
    ensures
        final(writer)@ == old(writer)@ + padded(data@, len as int),
{
    let mut field = slice_to_vec(data);
    field.resize(len, 0u8);
    assert(field@ =~= padded(data@, len as int));
    writer.pack_data(field.as_slice());
}

impl Cred {
    /// Packs a credential in its wire layout.
    pub fn pack(&self, writer: &mut Writer) -> (packed: Result<(), CredError>)
        ensures
            match self@.pack_error() {
                Some(error) => packed == Err::<(), _>(error) && final(writer)@ == old(writer)@,
                None => packed is Ok && final(writer)@ == old(writer)@ + self@.packed(),
            },
    {
        let principal = self.info.principal.as_str().as_bytes();
        let end: usize = nul_position(principal);
        proof {
            if end < principal@.len() {
                assert(principal@[end as int] == 0);
                assert(principal@.contains(0u8));
            }
        }
        if principal.len() > PRINCIPAL_MAX_LENGTH || end < principal.len() {
            return Err(CredError::InvalidPrincipal);
        }
        if self.data.len() > CRED_DATA_MAX_LENGTH {
            return Err(CredError::DataTooLarge(self.data.len()));
        }
        writer.pack_int((PRINCIPAL_MAX_LENGTH + 1) as i32);
        pack_padded(writer, principal, PRINCIPAL_MAX_LENGTH + 1);
        writer.pack_uid(self.info.uid);
        writer.pack_int(self.info.starttime);
        writer.pack_int(self.info.endtime);
        writer.pack_int(self.info.renew_till);
        writer.pack_int(if self.info.addressless { 1 } else { 0 });
        writer.pack_int(if self.info.crossrealm { 1 } else { 0 });
        writer.pack_int(CRED_DATA_MAX_LENGTH as i32);
        writer.pack_int(self.data.len() as i32);
        assert(writer@ =~= old(writer)@ + self@.header());
        pack_padded(writer, self.data.as_slice(), CRED_DATA_MAX_LENGTH);
        writer.pack_int(self.status);
        assert(writer@ =~= old(writer)@ + self@.packed());
        Ok(())
    }

    /// Unpacks a credential from its wire layout.
    pub fn unpack(reader: &mut Reader<'_>) -> (cred: Result<Self, CredError>)
        ensures
            match unpacked(old(reader)@).0 {
                Ok(expected) => cred is Ok && cred->Ok_0@ == expected,
                Err(error) => cred == Err::<Cred, _>(error),
            },
            final(reader)@ == old(reader)@.skip(unpacked(old(reader)@).1),
    {
        let ghost input = reader@;
        assert(input.skip(0) =~= input);
        let principal_length: i32 = int_field(reader, Ghost(input), Ghost(0))?;
        if principal_length != (PRINCIPAL_MAX_LENGTH + 1) as i32 {
            let length: usize = if principal_length < 0 { 0 } else { principal_length as usize };
            return Err(CredError::InvalidLength { length, max_length: PRINCIPAL_MAX_LENGTH + 1 });
        }
        let field = match reader.unpack_data(PRINCIPAL_MAX_LENGTH + 1) {
            Ok(field) => field,
            Err(error) => return Err(CredError::Protocol(error)),
        };
        assert(field@ =~= input.subrange(4, 133));
        assert(reader@ =~= input.skip(133));
        let end: usize = nul_position(field);
        let name = slice_subrange(field, 0, end);
        assert(name@ =~= text::before_nul(field@));
        let principal = match utf8_text(name) {
            Ok(principal) => principal,
            Err(error) => return Err(CredError::InvalidPrincipalUtf8(error)),
        };
        let uid: u32 = match reader.unpack_uid() {
            Ok(uid) => uid,
            Err(error) => return Err(CredError::Protocol(error)),
        };
        assert(reader@ =~= input.skip(137));
        let starttime: i32 = int_field(reader, Ghost(input), Ghost(137))?;
        let endtime: i32 = int_field(reader, Ghost(input), Ghost(141))?;
        let renew_till: i32 = int_field(reader, Ghost(input), Ghost(145))?;
        let addressless: bool = int_field(reader, Ghost(input), Ghost(149))? != 0;
        let crossrealm: bool = int_field(reader, Ghost(input), Ghost(153))? != 0;
        let max_length: i32 = int_field(reader, Ghost(input), Ghost(157))?;
        if max_length < 0 || max_length > CRED_DATA_MAX_LENGTH as i32 {
            return Err(CredError::InvalidMaxLength(max_length));
        }
        let length: i32 = int_field(reader, Ghost(input), Ghost(161))?;
        if length < 0 {
            return Err(
                CredError::InvalidLength { length: usize::MAX, max_length: max_length as usize },
            );
        }
        let length: usize = length as usize;
        let max_length: usize = max_length as usize;
        if length > CRED_DATA_MAX_LENGTH {
            return Err(CredError::DataTooLarge(length));
        }
        if length > max_length {
            return Err(CredError::InvalidLength { length, max_length });
        }
        let field = match reader.unpack_data(max_length) {
            Ok(field) => field,
            Err(error) => return Err(CredError::Protocol(error)),
        };
        assert(reader@ =~= input.skip(165 + max_length));
        let data = slice_to_vec(slice_subrange(field, 0, length));
        assert(data@ =~= input.subrange(165, 165 + length));
        let status: i32 = int_field(reader, Ghost(input), Ghost(165 + max_length))?;
        Ok(
            Cred {
                info: CredInfo {
                    principal,
                    uid,
                    starttime,
                    endtime,
                    renew_till,
                    addressless,
                    crossrealm,
                },
                data,
                status,
            },
        )
    }
}

/// The header of a credential that can be packed holds its fields where
/// [`unpacked`] looks for them, whatever follows.
proof fn lemma_header(cred: CredView, rest: Seq<u8>)
    requires
        cred.pack_error() is None,
    ensures
        cred.header().len() == 165,
        ({
            let input = cred.header() + rest;
            &&& proto::int_at(input, 0) == principal_field_len()
            &&& input.subrange(4, 133) == padded(encode_utf8(cred.info.principal), principal_field_len())
            &&& proto::uid_at(input, 133) == cred.info.uid
            &&& proto::int_at(input, 137) == cred.info.starttime
            &&& proto::int_at(input, 141) == cred.info.endtime
            &&& proto::int_at(input, 145) == cred.info.renew_till
            &&& proto::int_at(input, 149) == flag_int(cred.info.addressless)
            &&& proto::int_at(input, 153) == flag_int(cred.info.crossrealm)
            &&& proto::int_at(input, 157) == CRED_DATA_MAX_LENGTH
            &&& proto::int_at(input, 161) == cred.data.len()
        }),
{
    let input = cred.header() + rest;
    let name = padded(encode_utf8(cred.info.principal), principal_field_len());
    let h0 = proto::int_bytes(principal_field_len() as i32);
    let h1 = h0 + name;
    let h2 = h1 + proto::uid_bytes(cred.info.uid);
    let h3 = h2 + proto::int_bytes(cred.info.starttime);
    let h4 = h3 + proto::int_bytes(cred.info.endtime);
    let h5 = h4 + proto::int_bytes(cred.info.renew_till);
    let h6 = h5 + proto::int_bytes(flag_int(cred.info.addressless));
    let h7 = h6 + proto::int_bytes(flag_int(cred.info.crossrealm));
    let h8 = h7 + proto::int_bytes(CRED_DATA_MAX_LENGTH as i32);
    assert(cred.header() == h8 + proto::int_bytes(cred.data.len() as i32));
    let r8 = lemma_int_before(input, h8, cred.data.len() as i32, rest);
    let r7 = lemma_int_before(input, h7, CRED_DATA_MAX_LENGTH as i32, r8);
    let r6 = lemma_int_before(input, h6, flag_int(cred.info.crossrealm), r7);
    let r5 = lemma_int_before(input, h5, flag_int(cred.info.addressless), r6);
    let r4 = lemma_int_before(input, h4, cred.info.renew_till, r5);
    let r3 = lemma_int_before(input, h3, cred.info.endtime, r4);
    let r2 = lemma_int_before(input, h2, cred.info.starttime, r3);
    proto::lemma_uid_round_trip(cred.info.uid, h1, r2);
    proto::lemma_middle(h0, name, proto::uid_bytes(cred.info.uid) + r2);
    proto::lemma_regroup(h1, proto::uid_bytes(cred.info.uid), r2);
    proto::lemma_regroup(h0, name, proto::uid_bytes(cred.info.uid) + r2);
    proto::lemma_int_round_trip(
        principal_field_len() as i32,
        Seq::empty(),
        name + (proto::uid_bytes(cred.info.uid) + r2),
    );
    proto::lemma_regroup(Seq::empty(), h0, name + (proto::uid_bytes(cred.info.uid) + r2));
    proto::lemma_no_front(h0 + (name + (proto::uid_bytes(cred.info.uid) + r2)));
}

/// An integer written between `before` and `after` is found behind `before`.
/// Returns the integer's bytes and what follows them.
proof fn lemma_int_before(
    input: Seq<u8>,
    before: Seq<u8>,
    value: i32,
    after: Seq<u8>,
) -> (rest: Seq<u8>)
    requires
        input == (before + proto::int_bytes(value)) + after,
    ensures
        rest == proto::int_bytes(value) + after,
        input == before + rest,
        proto::int_at(input, before.len() as int) == value,
        (before + proto::int_bytes(value)).len() == before.len() + 4,
{
    proto::lemma_int_round_trip(value, before, after);
    proto::lemma_regroup(before, proto::int_bytes(value), after);
    proto::int_bytes(value) + after
}

/// Unpacking undoes packing: every credential that can be packed comes back
/// whole, whatever follows it, and exactly its own bytes are read.
pub proof fn law_unpack_undoes_pack(cred: CredView, rest: Seq<u8>)
    requires
        cred.pack_error() is None,
    ensures
        cred.packed().len() == packed_len(),
        unpacked(cred.packed() + rest) == (Ok::<_, CredError>(cred), packed_len()),
{
    let payload = padded(cred.data, CRED_DATA_MAX_LENGTH as int);
    let input = cred.packed() + rest;
    let front = cred.header() + payload;
    let tail = lemma_int_before(input, front, cred.status, rest);
    proto::lemma_regroup(cred.header(), payload, tail);
    lemma_header(cred, payload + tail);
    lemma_payload(cred.header(), cred.data, tail);
    lemma_name_field(cred.info.principal);
    encode_utf8_valid_utf8(cred.info.principal);
    encode_utf8_decode_utf8(cred.info.principal);
}

/// The payload of a credential stands at the front of its field.
proof fn lemma_payload(header: Seq<u8>, data: Seq<u8>, tail: Seq<u8>)
    requires
        header.len() == 165,
        data.len() <= CRED_DATA_MAX_LENGTH,
    ensures
        (header + padded(data, CRED_DATA_MAX_LENGTH as int) + tail).subrange(
            165,
            165 + data.len() as int,
        ) == data,
        padded(data, CRED_DATA_MAX_LENGTH as int).len() == CRED_DATA_MAX_LENGTH,
{
    assert((header + padded(data, CRED_DATA_MAX_LENGTH as int) + tail).subrange(
        165,
        165 + data.len() as int,
    ) =~= data);
}

/// A principal is what stands before the first NUL of its field.
proof fn lemma_name_field(principal: Seq<char>)
    requires
        encode_utf8(principal).len() <= PRINCIPAL_MAX_LENGTH,
        !encode_utf8(principal).contains(0u8),
    ensures
        text::before_nul(padded(encode_utf8(principal), principal_field_len())) == encode_utf8(
            principal,
        ),
{
    let name = encode_utf8(principal);
    let field = padded(name, principal_field_len());
    assert forall|i: int| 0 <= i < name.len() implies field[i] != 0 by {
        assert(name.contains(name[i]));
    }
    text::lemma_before_nul(field, name.len() as int);
    assert(field.take(name.len() as int) =~= name);
}

/// What unpacking reads is never more than there is.
pub proof fn law_unpack_reads_within_input(input: Seq<u8>)
    ensures
        0 <= unpacked(input).1 <= input.len(),
{
}

/// Whether a record ended before the field that was to be read.
pub open spec fn is_cut_off(error: CredError) -> bool {
    error matches CredError::Protocol(ProtoError::Truncated { .. })
}

/// An integer that lies in a prefix is read from it as from the whole.
proof fn lemma_int_in_prefix(bytes: Seq<u8>, len: int, at: int)
    requires
        0 <= at,
        at + 4 <= len <= bytes.len(),
    ensures
        proto::int_at(bytes.take(len), at) == proto::int_at(bytes, at),
{
}

/// A packed credential that is cut anywhere is refused as cut off, and nothing
/// comes of the part that is there.
pub proof fn law_cut_record_is_refused(cred: CredView, len: int)
    requires
        cred.pack_error() is None,
        0 <= len < packed_len(),
    ensures
        unpacked(cred.packed().take(len)).0 matches Err(error) && is_cut_off(error),
{
    let whole = cred.packed();
    let input = whole.take(len);
    let rest = padded(cred.data, CRED_DATA_MAX_LENGTH as int) + proto::int_bytes(cred.status);
    proto::lemma_regroup(
        cred.header(),
        padded(cred.data, CRED_DATA_MAX_LENGTH as int),
        proto::int_bytes(cred.status),
    );
    lemma_header(cred, rest);
    lemma_payload(cred.header(), cred.data, proto::int_bytes(cred.status));
    proto::lemma_int_round_trip(cred.status, Seq::empty(), Seq::empty());
    assert(whole.len() == packed_len());
    if len >= 4 {
        lemma_int_in_prefix(whole, len, 0);
    }
    if len >= 133 {
        assert(input.subrange(4, 133) =~= whole.subrange(4, 133));
        lemma_name_field(cred.info.principal);
        encode_utf8_valid_utf8(cred.info.principal);
    }
    if len >= 161 {
        lemma_int_in_prefix(whole, len, 157);
    }
    if len >= 165 {
        lemma_int_in_prefix(whole, len, 161);
    }
}

/// A credential on the wire, field by field, with whatever values they have.
pub struct RecordFields {
    /// Length of the principal field.
    pub name_length: i32,
    /// The principal field.
    pub name: Seq<u8>,
    pub uid: u32,
    pub starttime: i32,
    pub endtime: i32,
    pub renew_till: i32,
    pub addressless: i32,
    pub crossrealm: i32,
    /// Length of the payload field.
    pub max_length: i32,
    /// Length of the payload.
    pub length: i32,
    /// The payload field.
    pub payload: Seq<u8>,
    pub status: i32,
}

impl RecordFields {
    /// The fields before the payload, one behind the other.
    pub open spec fn front(self) -> Seq<u8> {
        proto::int_bytes(self.name_length) + self.name + proto::uid_bytes(self.uid)
            + proto::int_bytes(self.starttime) + proto::int_bytes(self.endtime)
            + proto::int_bytes(self.renew_till) + proto::int_bytes(self.addressless)
            + proto::int_bytes(self.crossrealm) + proto::int_bytes(self.max_length)
            + proto::int_bytes(self.length)
    }

    /// All fields, one behind the other.
    pub open spec fn bytes(self) -> Seq<u8> {
        self.front() + self.payload + proto::int_bytes(self.status)
    }
}

proof fn lemma_front(fields: RecordFields, rest: Seq<u8>)
    requires
        fields.name.len() == 129,
    ensures
        fields.front().len() == 165,
        ({
            let input = fields.front() + rest;
            &&& proto::int_at(input, 0) == fields.name_length
            &&& input.subrange(4, 133) == fields.name
            &&& proto::uid_at(input, 133) == fields.uid
            &&& proto::int_at(input, 137) == fields.starttime
            &&& proto::int_at(input, 141) == fields.endtime
            &&& proto::int_at(input, 145) == fields.renew_till
            &&& proto::int_at(input, 149) == fields.addressless
            &&& proto::int_at(input, 153) == fields.crossrealm
            &&& proto::int_at(input, 157) == fields.max_length
            &&& proto::int_at(input, 161) == fields.length
        }),
{
    let input = fields.front() + rest;
    let name = fields.name;
    let h0 = proto::int_bytes(fields.name_length);
    let h1 = h0 + name;
    let h2 = h1 + proto::uid_bytes(fields.uid);
    let h3 = h2 + proto::int_bytes(fields.starttime);
    let h4 = h3 + proto::int_bytes(fields.endtime);
    let h5 = h4 + proto::int_bytes(fields.renew_till);
    let h6 = h5 + proto::int_bytes(fields.addressless);
    let h7 = h6 + proto::int_bytes(fields.crossrealm);
    let h8 = h7 + proto::int_bytes(fields.max_length);
    assert(fields.front() == h8 + proto::int_bytes(fields.length));
    let r8 = lemma_int_before(input, h8, fields.length, rest);
    let r7 = lemma_int_before(input, h7, fields.max_length, r8);
    let r6 = lemma_int_before(input, h6, fields.crossrealm, r7);
    let r5 = lemma_int_before(input, h5, fields.addressless, r6);
    let r4 = lemma_int_before(input, h4, fields.renew_till, r5);
    let r3 = lemma_int_before(input, h3, fields.endtime, r4);
    let r2 = lemma_int_before(input, h2, fields.starttime, r3);
    let behind = proto::uid_bytes(fields.uid) + r2;
    proto::lemma_uid_round_trip(fields.uid, h1, r2);
    proto::lemma_middle(h0, name, behind);
    proto::lemma_regroup(h1, proto::uid_bytes(fields.uid), r2);
    proto::lemma_regroup(h0, name, behind);
    proto::lemma_int_round_trip(fields.name_length, Seq::empty(), name + behind);
    proto::lemma_regroup(Seq::empty(), h0, name + behind);
    proto::lemma_no_front(h0 + (name + behind));
}

/// The fields of a record are read in their order, whatever the length of its
/// payload field is: the principal up to its NUL, the user, the three times,
/// two flags of which any number but 0 is true, the payload at the front of its
/// field, and the status behind the field. No more is read than the record.
pub proof fn law_fields_are_read_in_order(
    fields: RecordFields,
    principal: Seq<char>,
    rest: Seq<u8>,
)
    requires
        fields.name_length == 129,
        fields.name.len() == 129,
        crate::krb5::holds_string(fields.name, encode_utf8(principal)),
        0 <= fields.length <= fields.max_length <= 32768,
        fields.payload.len() == fields.max_length,
    ensures
        unpacked(fields.bytes() + rest) == (
            Ok::<_, CredError>(
                CredView {
                    info: CredInfoView {
                        principal,
                        uid: fields.uid,
                        starttime: fields.starttime,
                        endtime: fields.endtime,
                        renew_till: fields.renew_till,
                        addressless: fields.addressless != 0,
                        crossrealm: fields.crossrealm != 0,
                    },
                    data: fields.payload.take(fields.length as int),
                    status: fields.status,
                },
            ),
            169 + fields.max_length,
        ),
{
    let input = fields.bytes() + rest;
    let front = fields.front() + fields.payload;
    let tail = lemma_int_before(input, front, fields.status, rest);
    proto::lemma_regroup(fields.front(), fields.payload, tail);
    lemma_front(fields, fields.payload + tail);
    crate::krb5::lemma_holds_string(fields.name, encode_utf8(principal));
    encode_utf8_valid_utf8(principal);
    encode_utf8_decode_utf8(principal);
    lemma_taken(fields.front(), fields.payload, tail, fields.length as int);
}

proof fn lemma_taken(front: Seq<u8>, payload: Seq<u8>, tail: Seq<u8>, length: int)
    requires
        front.len() == 165,
        0 <= length <= payload.len(),
    ensures
        (front + (payload + tail)).subrange(165, 165 + length) == payload.take(length),
{
    assert((front + (payload + tail)).subrange(165, 165 + length) =~= payload.take(length));
}

/// A record is refused for the first of its fields that is not accepted: a
/// principal field whose length is not 129; a principal that is not UTF-8; a
/// payload field longer than 32768 or of negative length; and a payload of
/// negative length, longer than 32768, or longer than its field.
pub proof fn law_refused_fields(fields: RecordFields, name: Seq<u8>, rest: Seq<u8>)
    requires
        fields.name.len() == 129,
        crate::krb5::holds_string(fields.name, name),
    ensures
        ({
            let outcome = unpacked(fields.front() + rest).0;
            let refused = |error: CredError| Err::<CredView, _>(error);
            let named = fields.name_length == 129 && valid_utf8(name);
            let bounded = named && 0 <= fields.max_length <= 32768;
            &&& fields.name_length != 129 ==> outcome == refused(
                CredError::InvalidLength {
                    length: if fields.name_length < 0 {
                        0
                    } else {
                        fields.name_length as usize
                    },
                    max_length: 129,
                },
            )
            &&& fields.name_length == 129 && !valid_utf8(name) ==> outcome == refused(
                CredError::InvalidPrincipalUtf8(text::utf8_error(name)),
            )
            &&& named && !bounded ==> outcome == refused(
                CredError::InvalidMaxLength(fields.max_length),
            )
            &&& bounded && fields.length < 0 ==> outcome == refused(
                CredError::InvalidLength {
                    length: usize::MAX,
                    max_length: fields.max_length as usize,
                },
            )
            &&& bounded && fields.length > 32768 ==> outcome == refused(
                CredError::DataTooLarge(fields.length as usize),
            )
            &&& bounded && fields.max_length < fields.length <= 32768 ==> outcome == refused(
                CredError::InvalidLength {
                    length: fields.length as usize,
                    max_length: fields.max_length as usize,
                },
            )
        }),
{
    lemma_front(fields, rest);
    crate::krb5::lemma_holds_string(fields.name, name);
}

/// A credential is packed as its fields in their order: the principal in 129
/// bytes and the payload in 32768, each filled up with zeros, and a flag as 1 or
/// 0.
pub proof fn law_packed_layout(cred: CredView)
    requires
        cred.pack_error() is None,
    ensures
        exists|fields: RecordFields|
            {
                &&& cred.packed() == #[trigger] fields.bytes()
                &&& fields.name_length == 129
                &&& is_filled_up(fields.name, encode_utf8(cred.info.principal), 129)
                &&& fields.uid == cred.info.uid
                &&& fields.starttime == cred.info.starttime
                &&& fields.endtime == cred.info.endtime
                &&& fields.renew_till == cred.info.renew_till
                &&& fields.addressless == (if cred.info.addressless {
                    1i32
                } else {
                    0i32
                })
                &&& fields.crossrealm == (if cred.info.crossrealm {
                    1i32
                } else {
                    0i32
                })
                &&& fields.max_length == 32768
                &&& fields.length == cred.data.len()
                &&& is_filled_up(fields.payload, cred.data, 32768)
                &&& fields.status == cred.status
            },
{
    let fields = RecordFields {
        name_length: 129,
        name: padded(encode_utf8(cred.info.principal), 129),
        uid: cred.info.uid,
        starttime: cred.info.starttime,
        endtime: cred.info.endtime,
        renew_till: cred.info.renew_till,
        addressless: if cred.info.addressless {
            1i32
        } else {
            0i32
        },
        crossrealm: if cred.info.crossrealm {
            1i32
        } else {
            0i32
        },
        max_length: 32768,
        length: cred.data.len() as i32,
        payload: padded(cred.data, 32768),
        status: cred.status,
    };
    assert(fields.front() == cred.header());
    assert(cred.packed() == fields.bytes());
}

/// Whether a field holds some bytes and zeros behind them.
pub open spec fn is_filled_up(field: Seq<u8>, bytes: Seq<u8>, len: int) -> bool {
    &&& bytes.len() <= len
    &&& field.len() == len
    &&& forall|i: int| 0 <= i < bytes.len() ==> #[trigger] field[i] == bytes[i]
    &&& forall|i: int| bytes.len() <= i < len ==> #[trigger] field[i] == 0
}

/// A credential cannot be packed exactly where its principal takes more than
/// 128 bytes or holds a NUL, or where its payload takes more than 32768 bytes.
pub proof fn law_credentials_that_cannot_be_packed(cred: CredView)
    ensures
        ({
            let principal = encode_utf8(cred.info.principal);
            let named = principal.len() <= 128 && !principal.contains(0u8);
            &&& !named ==> cred.pack_error() == Some(CredError::InvalidPrincipal)
            &&& named && cred.data.len() > 32768 ==> cred.pack_error() == Some(
                CredError::DataTooLarge(cred.data.len() as usize),
            )
            &&& named && cred.data.len() <= 32768 ==> cred.pack_error() is None
        }),
{
}

/// What is left of the fields of a packed credential that is cut.
proof fn lemma_cut_fields(cred: CredView, len: int)
    requires
        cred.pack_error() is None,
        0 <= len < 32937,
    ensures
        has_cut_fields(cred.packed().take(len)),
        cred.packed().take(len).len() == len,
{
    let whole = cred.packed();
    let input = whole.take(len);
    let payload = padded(cred.data, CRED_DATA_MAX_LENGTH as int);
    proto::lemma_regroup(cred.header(), payload, proto::int_bytes(cred.status));
    lemma_header(cred, payload + proto::int_bytes(cred.status));
    lemma_payload(cred.header(), cred.data, proto::int_bytes(cred.status));
    proto::lemma_int_round_trip(cred.status, Seq::empty(), Seq::empty());
    assert(whole.len() == packed_len());
    if len >= 4 {
        lemma_int_in_prefix(whole, len, 0);
    }
    if len >= 133 {
        assert(input.subrange(4, 133) =~= whole.subrange(4, 133));
        lemma_name_field(cred.info.principal);
        encode_utf8_valid_utf8(cred.info.principal);
    }
    if len >= 161 {
        lemma_int_in_prefix(whole, len, 157);
    }
    if len >= 165 {
        lemma_int_in_prefix(whole, len, 161);
    }
}

/// The fields that are there are those of a packed credential.
spec fn has_cut_fields(input: Seq<u8>) -> bool {
    &&& input.len() >= 4 ==> proto::int_at(input, 0) == 129
    &&& input.len() >= 133 ==> valid_utf8(text::before_nul(input.subrange(4, 133)))
    &&& input.len() >= 161 ==> proto::int_at(input, 157) == 32768
    &&& input.len() >= 165 ==> 0 <= proto::int_at(input, 161) <= 32768
}

/// How a read of `needed` bytes fails where `available` are there.
pub open spec fn is_missing(
    outcome: Result<CredView, CredError>,
    needed: int,
    available: int,
) -> bool {
    outcome matches Err(
        CredError::Protocol(ProtoError::Truncated { needed: asked, available: there }),
    ) && asked == needed && there == available
}

/// A packed credential that is cut says how long the field is that was cut, and
/// how much of it is there.
pub proof fn law_cut_record_says_what_is_missing(cred: CredView, len: int)
    requires
        cred.pack_error() is None,
        0 <= len < 32937,
    ensures
        ({
            let outcome = unpacked(cred.packed().take(len)).0;
            &&& len < 4 ==> is_missing(outcome, 4, len)
            &&& 4 <= len < 133 ==> is_missing(outcome, 129, len - 4)
            &&& 133 <= len < 165 ==> is_missing(outcome, 4, (len - 133) % 4)
            &&& 165 <= len < 32933 ==> is_missing(outcome, 32768, len - 165)
            &&& 32933 <= len ==> is_missing(outcome, 4, len - 32933)
        }),
{
    lemma_cut_fields(cred, len);
    lemma_cut_input(cred.packed().take(len));
}

proof fn lemma_cut_input(input: Seq<u8>)
    requires
        has_cut_fields(input),
        input.len() < 32937,
    ensures
        ({
            let len = input.len() as int;
            let outcome = unpacked(input).0;
            &&& len < 4 ==> is_missing(outcome, 4, len)
            &&& 4 <= len < 133 ==> is_missing(outcome, 129, len - 4)
            &&& 133 <= len < 165 ==> is_missing(outcome, 4, (len - 133) % 4)
            &&& 165 <= len < 32933 ==> is_missing(outcome, 32768, len - 165)
            &&& 32933 <= len ==> is_missing(outcome, 4, len - 32933)
        }),
{
}

/// A refused record is read up to the field that refused it, and that field is
/// read where it is there. A payload field or a status that is cut off is
/// refused with its length and with what is there of it.
pub proof fn law_where_reading_stops(fields: RecordFields, name: Seq<u8>, rest: Seq<u8>)
    requires
        fields.name.len() == 129,
        crate::krb5::holds_string(fields.name, name),
    ensures
        ({
            let (outcome, read) = unpacked(fields.front() + rest);
            let named = fields.name_length == 129 && valid_utf8(name);
            let bounded = named && 0 <= fields.max_length <= 32768;
            let whole = bounded && 0 <= fields.length <= fields.max_length;
            &&& fields.name_length != 129 ==> read == 4
            &&& fields.name_length == 129 && !valid_utf8(name) ==> read == 133
            &&& named && !bounded ==> read == 161
            &&& bounded && !whole ==> read == 165
            &&& whole && rest.len() < fields.max_length ==> read == 165 && is_missing(
                outcome,
                fields.max_length as int,
                rest.len() as int,
            )
            &&& whole && fields.max_length <= rest.len() < fields.max_length + 4 ==> read == 165
                + fields.max_length && is_missing(outcome, 4, rest.len() - fields.max_length)
        }),
{
    lemma_front(fields, rest);
    crate::krb5::lemma_holds_string(fields.name, name);
}

} // verus!
