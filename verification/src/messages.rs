//! Helpers for constructing and decoding credential messages.
use crate::cred::{self, Cred, CredError, CredView};
use crate::proto::{self, Message, MessageType, MessageView, ProtoError, Writer};
use vstd::prelude::*;

verus! {

/// A request whose body is one user ID.
pub open spec fn uid_message(ty: MessageType, uid: u32) -> MessageView {
    MessageView { ty, body: proto::uid_bytes(uid) }
}

fn with_uid(ty: MessageType, uid: u32) -> (message: Message)
    ensures
        message@ == uid_message(ty, uid),
{
    let mut message = Message::new(ty);
    let mut writer = Writer::new();
    writer.pack_uid(uid);
    message.body = writer.into_inner();
    assert(message.body@ =~= proto::uid_bytes(uid));
    message
}

/// Creates a GET request.
pub fn get_request(uid: u32) -> (message: Message)
    ensures
        message@ == uid_message(MessageType::GetRequest, uid),
{
    with_uid(MessageType::GetRequest, uid)
}

/// Creates a REMOVE request.
pub fn remove_request(uid: u32) -> (message: Message)
    ensures
        message@ == uid_message(MessageType::RemoveRequest, uid),
{
    with_uid(MessageType::RemoveRequest, uid)
}

/// Creates an ADD request containing an unparsed credential blob.
pub fn add_request(blob: &[u8]) -> (message: Message)
    ensures
        message@ == (MessageView { ty: MessageType::AddRequest, body: proto::data_field(blob@) }),
{
    Message::with_data(MessageType::AddRequest, blob)
}

/// Creates a PING request.
pub fn ping() -> (message: Message)
    ensures
        message@ == (MessageView { ty: MessageType::PingRequest, body: Seq::<u8>::empty() }),
{
    Message::new(MessageType::PingRequest)
}

/// Creates a CLOSE request.
pub fn close() -> (message: Message)
    ensures
        message@ == (MessageView { ty: MessageType::CloseRequest, body: Seq::<u8>::empty() }),
{
    Message::new(MessageType::CloseRequest)
}

/// Creates a DUMP request.
pub fn dump() -> (message: Message)
    ensures
        message@ == (MessageView { ty: MessageType::DumpRequest, body: Seq::<u8>::empty() }),
{
    Message::new(MessageType::DumpRequest)
}

/// What a GET reply decodes to.
pub open spec fn get_reply(message: MessageView) -> Result<CredView, CredError> {
    if message.ty != MessageType::GetReply {
        Err(CredError::UnexpectedMessageType)
    } else {
        cred::unpacked(message.body).0
    }
}

/// Decodes a GET reply.
pub fn decode_get_reply(message: &Message) -> (cred: Result<Cred, CredError>)
    ensures
        match get_reply(message@) {
            Ok(expected) => cred is Ok && cred->Ok_0@ == expected,
            Err(error) => cred == Err::<Cred, _>(error),
        },
{
    if message.ty != MessageType::GetReply {
        return Err(CredError::UnexpectedMessageType);
    }
    let mut reader = message.reader();
    Cred::unpack(&mut reader)
}

/// The credentials that stand one behind the other at the front of `input`. The
/// first one that does not unpack decides.
pub open spec fn unpacked_list(input: Seq<u8>, count: nat) -> Result<Seq<CredView>, CredError>
    decreases count,
{
    if count == 0 {
        Ok(Seq::empty())
    } else {
        match cred::unpacked(input) {
            (Err(error), _) => Err(error),
            (Ok(first), read) => prepend(
                seq![first],
                unpacked_list(input.skip(read), (count - 1) as nat),
            ),
        }
    }
}

/// The list behind `front`, if there is one.
pub open spec fn prepend(
    front: Seq<CredView>,
    rest: Result<Seq<CredView>, CredError>,
) -> Result<Seq<CredView>, CredError> {
    match rest {
        Ok(rest) => Ok(front + rest),
        Err(error) => Err(error),
    }
}

/// What a DUMP reply decodes to.
pub open spec fn dump_reply(message: MessageView) -> Result<Seq<CredView>, CredError> {
    let count = proto::int_at(message.body, 0);
    if message.ty != MessageType::DumpReply {
        Err(CredError::UnexpectedMessageType)
    } else if message.body.len() < 4 {
        Err(cred::missing(message.body, 0, 4))
    } else if count < 0 {
        Err(
            CredError::Protocol(
                ProtoError::TooLarge { requested: usize::MAX, maximum: i32::MAX as usize },
            ),
        )
    } else {
        unpacked_list(message.body.skip(4), count as nat)
    }
}

/// The values of a list of credentials.
pub open spec fn cred_views(creds: Seq<Cred>) -> Seq<CredView> {
    creds.map_values(|cred: Cred| cred@)
}

/// Decodes a DUMP reply.
pub fn decode_dump_reply(message: &Message) -> (creds: Result<Vec<Cred>, CredError>)
    ensures
        match dump_reply(message@) {
            Ok(expected) => creds is Ok && cred_views(creds->Ok_0@) == expected,
            Err(error) => creds == Err::<Vec<Cred>, _>(error),
        },
{
    if message.ty != MessageType::DumpReply {
        return Err(CredError::UnexpectedMessageType);
    }
    let mut reader = message.reader();
    let count: i32 = match reader.unpack_int() {
        Ok(count) => count,
        Err(error) => return Err(CredError::Protocol(error)),
    };
    if count < 0 {
        return Err(
            CredError::Protocol(
                ProtoError::TooLarge { requested: usize::MAX, maximum: i32::MAX as usize },
            ),
        );
    }
    let ghost input = reader@;
    let mut creds: Vec<Cred> = Vec::new();
    let mut left: i32 = count;
    assert(cred_views(creds@) =~= Seq::empty());
    proof {
        if let Ok(list) = unpacked_list(input, count as nat) {
            assert(Seq::<CredView>::empty() + list =~= list);
        }
    }
    while left > 0
        invariant
            0 <= left <= count,
            dump_reply(message@) == unpacked_list(input, count as nat),
            unpacked_list(input, count as nat) == prepend(
                cred_views(creds@),
                unpacked_list(reader@, left as nat),
            ),
        decreases left,
    {
        let ghost before = reader@;
        let ghost done = cred_views(creds@);
        let cred = match Cred::unpack(&mut reader) {
            Ok(cred) => cred,
            Err(error) => return Err(error),
        };
        proof {
            let rest = unpacked_list(reader@, (left - 1) as nat);
            assert(cred_views(creds@.push(cred)) =~= done.push(cred@));
            if let Ok(list) = rest {
                assert(done + (seq![cred@] + list) =~= done.push(cred@) + list);
            }
        }
        creds.push(cred);
        left = left - 1;
    }
    assert(cred_views(creds@) + Seq::<CredView>::empty() =~= cred_views(creds@));
    Ok(creds)
}

/// The credentials of a list, packed one behind the other.
pub open spec fn packed_list(creds: Seq<CredView>) -> Seq<u8>
    decreases creds.len(),
{
    if creds.len() == 0 {
        Seq::empty()
    } else {
        creds[0].packed() + packed_list(creds.skip(1))
    }
}

proof fn lemma_list_step(input: Seq<u8>, first: CredView, read: int, rest: Seq<CredView>)
    requires
        cred::unpacked(input) == (Ok::<_, CredError>(first), read),
        unpacked_list(input.skip(read), rest.len()) == Ok::<_, CredError>(rest),
    ensures
        unpacked_list(input, rest.len() + 1) == Ok::<_, CredError>(seq![first] + rest),
{
    assert((rest.len() + 1 - 1) as nat == rest.len());
}

proof fn lemma_packed_step(first: CredView, others: Seq<CredView>, rest: Seq<u8>)
    requires
        first.pack_error() is None,
        unpacked_list(packed_list(others) + rest, others.len()) == Ok::<_, CredError>(others),
    ensures
        unpacked_list(first.packed() + (packed_list(others) + rest), others.len() + 1) == Ok::<
            _,
            CredError,
        >(seq![first] + others),
{
    let tail = packed_list(others) + rest;
    let input = first.packed() + tail;
    cred::law_unpack_undoes_pack(first, tail);
    proto::lemma_behind(first.packed(), tail);
    lemma_list_step(input, first, cred::packed_len(), others);
}

proof fn lemma_list_round_trip(creds: Seq<CredView>, rest: Seq<u8>)
    requires
        forall|i: int| 0 <= i < creds.len() ==> (#[trigger] creds[i]).pack_error() is None,
    ensures
        unpacked_list(packed_list(creds) + rest, creds.len()) == Ok::<_, CredError>(creds),
    decreases creds.len(),
{
    if creds.len() == 0 {
        assert(creds =~= Seq::empty());
    } else {
        let others = creds.skip(1);
        assert(seq![creds[0]] + others =~= creds);
        lemma_list_round_trip(others, rest);
        lemma_packed_step(creds[0], others, rest);
        proto::lemma_regroup(creds[0].packed(), packed_list(others), rest);
    }
}

/// A GET reply whose body is a packed credential decodes to that credential,
/// whatever follows it.
pub proof fn law_get_reply_round_trip(cred: CredView, rest: Seq<u8>)
    requires
        cred.pack_error() is None,
    ensures
        get_reply(MessageView { ty: MessageType::GetReply, body: cred.packed() + rest }) == Ok::<
            _,
            CredError,
        >(cred),
{
    cred::law_unpack_undoes_pack(cred, rest);
}

/// A GET reply whose credential is cut anywhere is refused as cut off.
pub proof fn law_cut_get_reply_is_refused(cred: CredView, len: int)
    requires
        cred.pack_error() is None,
        0 <= len < cred::packed_len(),
    ensures
        get_reply(
            MessageView { ty: MessageType::GetReply, body: cred.packed().take(len) },
        ) matches Err(error) && cred::is_cut_off(error),
{
    cred::law_cut_record_is_refused(cred, len);
}

/// The body of a DUMP reply: a count and that many packed credentials.
pub open spec fn dump_body(creds: Seq<CredView>) -> Seq<u8> {
    proto::int_bytes(creds.len() as i32) + packed_list(creds)
}

/// A DUMP reply whose body is a count and that many packed credentials decodes
/// to those credentials, in their order, whatever follows them.
pub proof fn law_dump_reply_round_trip(creds: Seq<CredView>, rest: Seq<u8>)
    requires
        creds.len() <= i32::MAX,
        forall|i: int| 0 <= i < creds.len() ==> (#[trigger] creds[i]).pack_error() is None,
    ensures
        dump_reply(
            MessageView { ty: MessageType::DumpReply, body: dump_body(creds) + rest },
        ) == Ok::<_, CredError>(creds),
{
    let body = dump_body(creds) + rest;
    let none = Seq::<u8>::empty();
    let list = packed_list(creds) + rest;
    proto::lemma_int_round_trip(creds.len() as i32, none, list);
    assert(none + proto::int_bytes(creds.len() as i32) + list =~= body);
    assert(body.skip(4) =~= list);
    lemma_list_round_trip(creds, rest);
}

proof fn lemma_first_refused(input: Seq<u8>, count: nat, error: CredError)
    requires
        count > 0,
        cred::unpacked(input).0 == Err::<CredView, _>(error),
    ensures
        unpacked_list(input, count) == Err::<Seq<CredView>, _>(error),
{
}

proof fn lemma_later_refused(
    input: Seq<u8>,
    first: CredView,
    read: int,
    count: nat,
    error: CredError,
)
    requires
        cred::unpacked(input) == (Ok::<_, CredError>(first), read),
        unpacked_list(input.skip(read), count) == Err::<Seq<CredView>, _>(error),
    ensures
        unpacked_list(input, count + 1) == Err::<Seq<CredView>, _>(error),
{
    assert((count + 1 - 1) as nat == count);
}

proof fn lemma_cut_list(creds: Seq<CredView>, len: int)
    requires
        forall|i: int| 0 <= i < creds.len() ==> (#[trigger] creds[i]).pack_error() is None,
        0 <= len < packed_list(creds).len(),
    ensures
        unpacked_list(packed_list(creds).take(len), creds.len()) matches Err(error)
            && cred::is_cut_off(error),
    decreases creds.len(),
{
    let first = creds[0];
    let others = creds.skip(1);
    let record = first.packed();
    let list = packed_list(others);
    cred::law_unpack_undoes_pack(first, list);
    lemma_cut_step(first, record, others, list, len);
    assert(packed_list(creds) == record + list);
    if len >= record.len() {
        lemma_cut_list(others, len - record.len());
    }
}

/// A list that is cut in its first record, or behind it.
proof fn lemma_cut_step(
    first: CredView,
    record: Seq<u8>,
    others: Seq<CredView>,
    list: Seq<u8>,
    len: int,
)
    requires
        first.pack_error() is None,
        record == first.packed(),
        record.len() == cred::packed_len(),
        0 <= len < record.len() + list.len(),
    ensures
        len < record.len() ==> (unpacked_list((record + list).take(len), others.len() + 1)
            matches Err(error) && cred::is_cut_off(error)),
        len >= record.len() ==> (unpacked_list(
            list.take(len - record.len()),
            others.len(),
        ) matches Err(error) ==> unpacked_list((record + list).take(len), others.len() + 1)
            == Err::<Seq<CredView>, _>(error)),
{
    let input = (record + list).take(len);
    if len < record.len() {
        assert(input =~= record.take(len));
        cred::law_cut_record_is_refused(first, len);
        lemma_first_refused(input, others.len() + 1, cred::unpacked(input).0->Err_0);
    } else {
        let tail = list.take(len - record.len());
        assert(input =~= record + tail);
        cred::law_unpack_undoes_pack(first, tail);
        proto::lemma_behind(record, tail);
        if let Err(error) = unpacked_list(tail, others.len()) {
            lemma_later_refused(input, first, cred::packed_len(), others.len(), error);
        }
    }
}

/// A DUMP reply that is cut anywhere, in its count or in one of its records, is
/// refused as cut off: it never decodes to a shorter list.
pub proof fn law_cut_dump_reply_is_refused(creds: Seq<CredView>, len: int)
    requires
        creds.len() <= i32::MAX,
        forall|i: int| 0 <= i < creds.len() ==> (#[trigger] creds[i]).pack_error() is None,
        0 <= len < dump_body(creds).len(),
    ensures
        dump_reply(
            MessageView { ty: MessageType::DumpReply, body: dump_body(creds).take(len) },
        ) matches Err(error) && cred::is_cut_off(error),
{
    let none = Seq::<u8>::empty();
    let count = proto::int_bytes(creds.len() as i32);
    let list = packed_list(creds);
    let body = dump_body(creds).take(len);
    proto::lemma_int_round_trip(creds.len() as i32, none, list.take(len - 4));
    if len >= 4 {
        assert(none + count + list.take(len - 4) =~= body);
        assert(body.skip(4) =~= list.take(len - 4));
        lemma_cut_list(creds, len - 4);
    }
}

/// The daemon reads from a GET or REMOVE request the user ID that it was made
/// for.
pub proof fn law_uid_request_round_trip(ty: MessageType, uid: u32)
    ensures
        proto::decoded_message(uid_message(ty, uid).encoding()) == Ok::<_, ProtoError>(
            uid_message(ty, uid),
        ),
        proto::uid_at(uid_message(ty, uid).body, 0) == uid,
{
    let none = Seq::<u8>::empty();
    proto::lemma_uid_round_trip(uid, none, none);
    assert(none + proto::uid_bytes(uid) + none =~= proto::uid_bytes(uid));
    proto::law_decode_undoes_encode(uid_message(ty, uid));
}

/// The daemon reads from an ADD request the blob that it was made for, behind
/// the blob's length.
pub proof fn law_add_request_round_trip(blob: Seq<u8>)
    requires
        blob.len() + 4 <= proto::MAX_DATA_LENGTH,
    ensures
        ({
            let message = MessageView {
                ty: MessageType::AddRequest,
                body: proto::data_field(blob),
            };
            &&& proto::decoded_message(message.encoding()) == Ok::<_, ProtoError>(message)
            &&& proto::int_at(message.body, 0) == blob.len()
            &&& message.body.skip(4) == blob
        }),
{
    let message = MessageView { ty: MessageType::AddRequest, body: proto::data_field(blob) };
    proto::law_decode_undoes_encode(message);
    let none = Seq::<u8>::empty();
    proto::lemma_int_round_trip(blob.len() as i32, none, blob);
    assert(none + proto::int_bytes(blob.len() as i32) + blob =~= message.body);
    assert(message.body.skip(4) =~= blob);
}

/// A reply of another type than the one that is decoded is refused as such. A
/// dump whose count is cut off or negative is refused too, and a dump of nothing
/// is an empty list, whatever follows.
pub proof fn law_refused_replies(message: MessageView)
    requires
        message.body.len() <= usize::MAX,
    ensures
        message.ty != MessageType::GetReply ==> get_reply(message) == Err::<CredView, _>(
            CredError::UnexpectedMessageType,
        ),
        message.ty == MessageType::GetReply ==> get_reply(message) == cred::unpacked(
            message.body,
        ).0,
        message.ty != MessageType::DumpReply ==> dump_reply(message) == Err::<Seq<CredView>, _>(
            CredError::UnexpectedMessageType,
        ),
        message.ty == MessageType::DumpReply && message.body.len() < 4 ==> dump_reply(message)
            == Err::<Seq<CredView>, _>(
            CredError::Protocol(
                ProtoError::Truncated { needed: 4, available: message.body.len() as usize },
            ),
        ),
        message.ty == MessageType::DumpReply && message.body.len() >= 4 ==> {
            let count = proto::big_endian(
                message.body[0],
                message.body[1],
                message.body[2],
                message.body[3],
            );
            &&& count >= 2147483648 ==> dump_reply(message) == Err::<Seq<CredView>, _>(
                CredError::Protocol(
                    ProtoError::TooLarge { requested: usize::MAX, maximum: 2147483647 },
                ),
            )
            &&& count == 0 ==> (dump_reply(message) matches Ok(creds) && creds.len() == 0)
        },
{
    if message.body.len() >= 4 {
        proto::law_integers_are_read_big_endian(message.body, 0);
    }
}

/// A dump is as long as its count says, each of its credentials is read behind
/// the one before, and the first one that does not unpack refuses the whole.
pub proof fn law_dump_is_read_one_by_one(input: Seq<u8>, count: nat)
    requires
        count > 0,
    ensures
        unpacked_list(input, count) matches Ok(creds) ==> {
            &&& creds.len() == count
            &&& cred::unpacked(input).0 == Ok::<_, CredError>(creds[0])
            &&& unpacked_list(input.skip(cred::unpacked(input).1), (count - 1) as nat) == Ok::<
                _,
                CredError,
            >(creds.skip(1))
        },
        cred::unpacked(input).0 matches Err(error) ==> unpacked_list(input, count) == Err::<
            Seq<CredView>,
            _,
        >(error),
    decreases count,
{
    if let (Ok(first), read) = cred::unpacked(input) {
        let behind = input.skip(read);
        if count > 1 {
            law_dump_is_read_one_by_one(behind, (count - 1) as nat);
        }
        if let Ok(others) = unpacked_list(behind, (count - 1) as nat) {
            assert((seq![first] + others).skip(1) =~= others);
        }
    }
}

/// What is asked for a user is the user ID in four bytes, most significant
/// first, and nothing else.
pub proof fn law_request_bodies(ty: MessageType, uid: u32)
    ensures
        uid_message(ty, uid).ty == ty,
        uid_message(ty, uid).body.len() == 4,
        proto::big_endian(
            uid_message(ty, uid).body[0],
            uid_message(ty, uid).body[1],
            uid_message(ty, uid).body[2],
            uid_message(ty, uid).body[3],
        ) == uid,
{
    proto::law_integers_are_big_endian(0, uid);
}

} // verus!
