//! Wire primitives and messages.
use auks::proto::{Message, MessageType, ProtoError, Reader, Writer, MAX_DATA_LENGTH};

#[test]
fn integers_are_big_endian() {
    let mut writer = Writer::new();
    writer.pack_int(0x0102_0304);
    writer.pack_uid(u32::MAX);
    assert_eq!(writer.into_inner(), [1, 2, 3, 4, 255, 255, 255, 255]);
}

#[test]
fn message_with_data_round_trips() {
    let message = Message::with_data(MessageType::AddRequest, &[1, 2, 3]);
    assert_eq!(Message::decode(&message.encode()).expect("decode"), message);
}

#[test]
fn malformed_messages_are_rejected() {
    assert_eq!(
        Message::decode(&[0, 0, 0]).expect_err("truncated"),
        ProtoError::Truncated {
            needed: 4,
            available: 3
        }
    );
    assert_eq!(
        Message::decode(&[0, 0, 0, 99]).expect_err("unknown"),
        ProtoError::UnknownType(99)
    );
}

#[test]
fn message_with_data_has_a_length_prefix() {
    let message = Message::with_data(MessageType::AddRequest, &[7, 8]);
    assert_eq!(message.encode(), [0, 0, 0, 2, 0, 0, 0, 2, 7, 8]);
}

#[test]
fn negative_integers_round_trip() {
    for value in [i32::MIN, -1, 0, 1, i32::MAX] {
        let mut writer = Writer::default();
        writer.pack_int(value);
        let bytes = writer.clone().into_inner();
        let mut reader = Reader::new(&bytes);
        assert_eq!(reader.unpack_int(), Ok(value));
        assert_eq!(reader.remaining(), 0);
    }
}

#[test]
fn every_type_round_trips_through_its_number() {
    let numbers = [0, 1, 2, 3, 4, 5, 6, 7, 20, 21, 22, 23, 24, 25, 26];
    for number in numbers {
        let ty = MessageType::try_from(number).expect("defined type");
        assert_eq!(i32::from(ty), number);
    }
    assert_eq!(MessageType::try_from(8), Err(ProtoError::UnknownType(8)));
    assert_eq!(MessageType::try_from(-1), Err(ProtoError::UnknownType(-1)));
    assert_eq!(MessageType::try_from(24), Ok(MessageType::GetReply));
}

#[test]
fn readers_refuse_what_is_not_there() {
    let bytes = [1, 2, 3, 4, 5];
    let mut reader = Reader::new(&bytes);
    assert_eq!(reader.unpack_data(2), Ok(&bytes[..2]));
    assert_eq!(
        reader.unpack_uid(),
        Err(ProtoError::Truncated {
            needed: 4,
            available: 3
        })
    );
    assert_eq!(reader.remaining(), 3);
    assert_eq!(
        reader.unpack_data(MAX_DATA_LENGTH + 1),
        Err(ProtoError::TooLarge {
            requested: MAX_DATA_LENGTH + 1,
            maximum: MAX_DATA_LENGTH
        })
    );
    assert_eq!(reader.unpack_data(3), Ok(&bytes[2..]));
}

#[test]
fn bodies_can_be_written_and_read() {
    let mut message = Message::new(MessageType::RemoveRequest);
    message.writer().push(0);
    message.writer().extend_from_slice(&[0, 1, 0]);
    assert_eq!(message.reader().unpack_uid(), Ok(256));
    assert_eq!(message.clone(), message);
}
