//! Credentials and messages against their wire layout.
use auks::cred::{Cred, CredError, CredInfo};
use auks::messages::{
    add_request, close, decode_dump_reply, decode_get_reply, dump, get_request, ping,
    remove_request,
};
use auks::proto::{
    Message, MessageType, ProtoError, Reader, Writer, CRED_DATA_MAX_LENGTH,
};
use auks::text::Utf8Error;

fn blob() -> Vec<u8> {
    (0..1000).map(|value| (value & 0xff) as u8).collect()
}

fn word(value: i32) -> Vec<u8> {
    value.to_be_bytes().to_vec()
}

fn padded(bytes: &[u8], length: usize) -> Vec<u8> {
    let mut field = bytes.to_vec();
    field.resize(length, 0);
    field
}

/// The wire layout of a credential, field by field.
fn layout(
    principal: &str,
    uid: u32,
    times: [i32; 3],
    flags: [i32; 2],
    data: &[u8],
    status: i32,
) -> Vec<u8> {
    let mut bytes = word(129);
    bytes.extend(padded(principal.as_bytes(), 129));
    bytes.extend(uid.to_be_bytes());
    for time in times {
        bytes.extend(word(time));
    }
    for flag in flags {
        bytes.extend(word(flag));
    }
    bytes.extend(word(32768));
    bytes.extend(word(data.len() as i32));
    bytes.extend(padded(data, 32768));
    bytes.extend(word(status));
    bytes
}

fn user_layout() -> Vec<u8> {
    layout(
        "user@EXAMPLE.COM",
        1234,
        [1_700_000_000, 1_700_036_000, 1_700_604_800],
        [1, 0],
        &blob(),
        0,
    )
}

fn admin_layout() -> Vec<u8> {
    layout(
        "admin@EXAMPLE.COM",
        4321,
        [1_700_000_000, 1_700_036_000, 1_700_604_800],
        [0, 1],
        &[0xaa; 17],
        0,
    )
}

fn vector(name: &str) -> Vec<u8> {
    let parts: Vec<Vec<u8>> = match name {
        "ping_request" => vec![word(0)],
        "close_request" => vec![word(5)],
        "dump_request" => vec![word(6)],
        "get_request_1234" => vec![word(3), word(1234)],
        "remove_request_4321" => vec![word(4), word(4321)],
        "add_request" => vec![word(2), word(1000), blob()],
        "get_reply" => vec![word(24), user_layout()],
        "dump_reply" => vec![word(26), word(2), user_layout(), admin_layout()],
        "error_reply" => vec![word(21), word(-1)],
        _ => panic!("unknown vector"),
    };
    parts.concat()
}

#[test]
fn requests_match_c_vectors() {
    assert_eq!(ping().encode(), vector("ping_request"));
    assert_eq!(close().encode(), vector("close_request"));
    assert_eq!(dump().encode(), vector("dump_request"));
    assert_eq!(get_request(1234).encode(), vector("get_request_1234"));
    assert_eq!(remove_request(4321).encode(), vector("remove_request_4321"));
    assert_eq!(add_request(&blob()).encode(), vector("add_request"));
}

#[test]
fn all_vectors_decode_to_expected_types() {
    assert_eq!(
        Message::decode(&vector("ping_request")).expect("ping").ty,
        MessageType::PingRequest
    );
    assert_eq!(
        Message::decode(&vector("close_request")).expect("close").ty,
        MessageType::CloseRequest
    );
    assert_eq!(
        Message::decode(&vector("dump_request")).expect("dump").ty,
        MessageType::DumpRequest
    );
    assert_eq!(
        Message::decode(&vector("add_request")).expect("add").ty,
        MessageType::AddRequest
    );
    assert_eq!(
        Message::decode(&vector("error_reply")).expect("error").ty,
        MessageType::ErrorReply
    );

    let get = Message::decode(&vector("get_request_1234")).expect("get");
    assert_eq!(get.ty, MessageType::GetRequest);
    assert_eq!(get.reader().unpack_uid().expect("uid"), 1234);
    let remove = Message::decode(&vector("remove_request_4321")).expect("remove");
    assert_eq!(remove.reader().unpack_uid().expect("uid"), 4321);
}

fn user_cred() -> Cred {
    Cred {
        info: CredInfo {
            principal: "user@EXAMPLE.COM".to_owned(),
            uid: 1234,
            starttime: 1_700_000_000,
            endtime: 1_700_036_000,
            renew_till: 1_700_604_800,
            addressless: true,
            crossrealm: false,
        },
        data: blob(),
        status: 0,
    }
}

#[test]
fn replies_decode_to_expected_credentials() {
    let get = Message::decode(&vector("get_reply")).expect("get reply");
    assert_eq!(decode_get_reply(&get).expect("credential"), user_cred());

    let dump = Message::decode(&vector("dump_reply")).expect("dump reply");
    let credentials = decode_dump_reply(&dump).expect("credentials");
    assert_eq!(credentials.len(), 2);
    assert_eq!(credentials[0], user_cred());
    assert_eq!(credentials[1].info.principal, "admin@EXAMPLE.COM");
    assert_eq!(credentials[1].info.uid, 4321);
    assert!(!credentials[1].info.addressless);
    assert!(credentials[1].info.crossrealm);
    assert_eq!(credentials[1].data, vec![0xaa; 17]);
}

#[test]
fn cred_pack_matches_c_cred_portion() {
    let message = Message::decode(&vector("get_reply")).expect("get reply");
    let mut writer = Writer::new();
    user_cred().pack(&mut writer).expect("pack");
    assert_eq!(writer.into_inner(), message.body);
}

#[test]
fn malformed_and_boundary_credentials_are_rejected() {
    let mut writer = Writer::new();
    writer.pack_int(128 + 1);
    writer.pack_data(&[0; 129]);
    let bytes = writer.into_inner();
    let mut reader = Reader::new(&bytes);
    assert!(Cred::unpack(&mut reader).is_err());

    let mut writer = Writer::new();
    writer.pack_int(129);
    writer.pack_data(&[0; 129]);
    writer.pack_uid(1);
    writer.pack_int(0);
    writer.pack_int(0);
    writer.pack_int(0);
    writer.pack_int(1);
    writer.pack_int(0);
    writer.pack_int((CRED_DATA_MAX_LENGTH + 1) as i32);
    let bytes = writer.into_inner();
    let mut reader = Reader::new(&bytes);
    assert!(matches!(
        Cred::unpack(&mut reader),
        Err(CredError::InvalidMaxLength(_))
    ));
}

#[test]
fn principal_length_boundaries_are_enforced_on_pack() {
    let mut credential = user_cred();
    credential.info.principal = "x".repeat(128);
    credential
        .pack(&mut Writer::new())
        .expect("128-byte principal");
    credential.info.principal = "x".repeat(129);
    assert!(matches!(
        credential.pack(&mut Writer::new()),
        Err(CredError::InvalidPrincipal)
    ));
}

#[test]
fn credentials_that_do_not_fit_are_not_packed() {
    let mut credential = user_cred();
    credential.info.principal = "nul\0inside".to_owned();
    let mut writer = Writer::new();
    assert_eq!(
        credential.pack(&mut writer),
        Err(CredError::InvalidPrincipal)
    );
    assert!(writer.into_inner().is_empty());

    let mut credential = user_cred();
    credential.data = vec![1; CRED_DATA_MAX_LENGTH];
    credential.pack(&mut Writer::new()).expect("largest payload");
    credential.data.push(1);
    assert_eq!(
        credential.pack(&mut Writer::new()),
        Err(CredError::DataTooLarge(CRED_DATA_MAX_LENGTH + 1))
    );
}

fn unpack(bytes: &[u8]) -> Result<Cred, CredError> {
    Cred::unpack(&mut Reader::new(bytes))
}

#[test]
fn unpack_undoes_pack_and_stops_behind_the_record() {
    let mut bytes = user_layout();
    bytes.extend([9, 9, 9]);
    let mut reader = Reader::new(&bytes);
    assert_eq!(Cred::unpack(&mut reader), Ok(user_cred()));
    assert_eq!(reader.remaining(), 3);
    assert_eq!(user_cred().clone(), user_cred());
}

#[test]
fn each_malformed_field_has_its_error() {
    let good = user_layout();

    assert_eq!(
        unpack(&good[..2]),
        Err(CredError::Protocol(ProtoError::Truncated {
            needed: 4,
            available: 2
        }))
    );

    let mut bytes = good.clone();
    bytes[..4].copy_from_slice(&word(-5));
    assert_eq!(
        unpack(&bytes),
        Err(CredError::InvalidLength {
            length: 0,
            max_length: 129
        })
    );

    let mut bytes = good.clone();
    bytes[4] = 0xff;
    assert_eq!(
        unpack(&bytes),
        Err(CredError::InvalidPrincipalUtf8(Utf8Error {
            valid_up_to: 0,
            error_len: Some(1)
        }))
    );

    let mut bytes = good.clone();
    bytes[161..165].copy_from_slice(&word(-1));
    assert_eq!(
        unpack(&bytes),
        Err(CredError::InvalidLength {
            length: usize::MAX,
            max_length: 32768
        })
    );

    let mut bytes = good.clone();
    bytes[161..165].copy_from_slice(&word(40000));
    assert_eq!(unpack(&bytes), Err(CredError::DataTooLarge(40000)));

    let mut bytes = good.clone();
    bytes[157..161].copy_from_slice(&word(10));
    assert_eq!(
        unpack(&bytes),
        Err(CredError::InvalidLength {
            length: 1000,
            max_length: 10
        })
    );

    assert_eq!(
        unpack(&good[..good.len() - 1]),
        Err(CredError::Protocol(ProtoError::Truncated {
            needed: 4,
            available: 3
        }))
    );
}

#[test]
fn a_principal_cut_in_the_middle_of_a_character_is_reported() {
    let mut bytes = layout("", 1, [0, 0, 0], [0, 0], &[], 0);
    bytes[4] = b'a';
    bytes[5] = 0xc3;
    assert_eq!(
        unpack(&bytes),
        Err(CredError::InvalidPrincipalUtf8(Utf8Error {
            valid_up_to: 1,
            error_len: None
        }))
    );
    bytes[6] = 0xa9;
    assert_eq!(unpack(&bytes).expect("principal").info.principal, "aé");
}

#[test]
fn replies_of_another_type_are_refused() {
    assert_eq!(
        decode_get_reply(&ping()),
        Err(CredError::UnexpectedMessageType)
    );
    assert_eq!(
        decode_dump_reply(&ping()),
        Err(CredError::UnexpectedMessageType)
    );
    let negative = Message {
        ty: MessageType::DumpReply,
        body: word(-1),
    };
    assert_eq!(
        decode_dump_reply(&negative),
        Err(CredError::Protocol(ProtoError::TooLarge {
            requested: usize::MAX,
            maximum: i32::MAX as usize
        }))
    );
    let cut = Message {
        ty: MessageType::DumpReply,
        body: word(i32::MAX),
    };
    assert_eq!(
        decode_dump_reply(&cut),
        Err(CredError::Protocol(ProtoError::Truncated {
            needed: 4,
            available: 0
        }))
    );
    let none = Message {
        ty: MessageType::DumpReply,
        body: word(0),
    };
    assert_eq!(decode_dump_reply(&none), Ok(Vec::new()));
}

#[test]
fn decoded_messages_encode_to_what_they_came_from() {
    for name in ["ping_request", "get_request_1234", "add_request", "get_reply", "error_reply"] {
        let bytes = vector(name);
        assert_eq!(Message::decode(&bytes).expect("message").encode(), bytes);
    }
}

#[test]
fn what_follows_the_records_is_passed_over() {
    let mut body = user_layout();
    body.extend([1, 2, 3]);
    let get = Message {
        ty: MessageType::GetReply,
        body,
    };
    assert_eq!(decode_get_reply(&get), Ok(user_cred()));
    let mut dump = Message::decode(&vector("dump_reply")).expect("dump reply");
    dump.body.extend([1, 2, 3]);
    assert_eq!(decode_dump_reply(&dump).expect("credentials").len(), 2);
}

#[test]
fn cut_replies_are_never_shorter_lists() {
    let whole = Message::decode(&vector("dump_reply")).expect("dump reply").body;
    let record = user_layout().len();
    for length in [0, 3, 4, 5, 4 + record, 5 + record, 4 + record + 140, whole.len() - 1] {
        let cut = Message {
            ty: MessageType::DumpReply,
            body: whole[..length].to_vec(),
        };
        assert!(matches!(
            decode_dump_reply(&cut),
            Err(CredError::Protocol(ProtoError::Truncated { .. }))
        ));
    }
}
