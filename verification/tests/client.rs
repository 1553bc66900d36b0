//! The client: attempts, rounds and replies.
use auks::attempt::{
    answers, Attempt, AttemptCall, AttemptError, AttemptEvent, AttemptStep, Endpoint, Plan,
};
use auks::client::{AddCall, AddEvent, Client, Error, IoError, IoErrorKind};
use auks::config::{ClientConfig, Duration, Server};
use auks::cred::{Cred, CredError, CredInfo};
use auks::exchange::{Exchange, ExchangeCall, ExchangeEvent};
use auks::krb5::{self, Address, Ipv4};
use auks::machine::Step;
use auks::messages;
use auks::proto::{Message, MessageType, ProtoError, Writer};

fn server(port: &str) -> Server {
    Server {
        host: "127.0.0.1".into(),
        address: "127.0.0.1".into(),
        port: port.into(),
        principal: "host/localhost@EXAMPLE.COM".into(),
    }
}

fn config(primary: u16, secondary: u16) -> ClientConfig {
    ClientConfig {
        primary: server(&primary.to_string()),
        secondary: Some(server(&secondary.to_string())),
        cross_realm: None,
        nat: false,
        retries: 2,
        timeout: Duration {
            secs: 0,
            nanos: 50_000_000,
        },
        delay: Duration::from_secs(1),
        helper_script: None,
    }
}

fn io(message: &str) -> IoError {
    IoError {
        kind: IoErrorKind::Other,
        message: message.to_owned(),
    }
}

fn krb5_error() -> krb5::Error {
    krb5::error_for(22, &Some(b"broken\0".to_vec()), "krb5_test")
}

/// What an exchange asks for while every attempt ends with `outcome`.
fn drive(
    mut exchange: Exchange,
    mut outcome: impl FnMut(&Plan) -> Result<Message, AttemptError>,
) -> (Vec<ExchangeCall>, Result<Message, Error>) {
    let mut calls = Vec::new();
    loop {
        let call = exchange.call();
        let event = match &call {
            ExchangeCall::Try(plan) => ExchangeEvent::Tried(outcome(plan)),
            ExchangeCall::Sleep(_) => ExchangeEvent::Slept,
        };
        assert!(auks::exchange::answers(&call, &event));
        calls.push(call);
        match exchange.step(event) {
            Step::Next(next) => exchange = next,
            Step::Finished(result) => return (calls, result),
        }
    }
}

#[test]
fn retries_primary_and_secondary() {
    let client = Client::new(config(4001, 4002));
    let mut failures = 0;
    let (calls, reply) = drive(client.ping(), |_| {
        failures += 1;
        Err(AttemptError::Retry(Error::Io(io(&format!("closed {failures}")))))
    });
    let error = Client::pinged(reply).expect_err("closed ports");
    assert!(matches!(error, Error::Io(_) | Error::Krb5(_)));
    assert_eq!(error, Error::Io(io("closed 4")));
    let count = |port: &str| {
        calls
            .iter()
            .filter(|call| matches!(call, ExchangeCall::Try(plan) if plan.server.port == port))
            .count()
    };
    assert_eq!(count("4001"), 2);
    assert_eq!(count("4002"), 2);
    assert_eq!(calls.len(), 5);
    assert_eq!(calls[2], ExchangeCall::Sleep(Duration::from_secs(1)));
}

#[test]
fn no_retries_still_make_one_round() {
    let mut config = config(1, 2);
    config.retries = 0;
    config.secondary = None;
    let (calls, reply) = drive(Client::new(config).ping(), |_| {
        Err(AttemptError::Retry(Error::Krb5(krb5_error())))
    });
    assert_eq!(calls.len(), 1);
    assert_eq!(reply, Err(Error::Krb5(krb5_error())));
}

#[test]
fn final_failures_and_answers_end_the_exchange() {
    let client = Client::new(config(1, 2));
    let (calls, reply) = drive(client.ping(), |_| {
        Err(AttemptError::Return(Error::Krb5(krb5_error())))
    });
    assert_eq!(calls.len(), 1);
    assert_eq!(reply, Err(Error::Krb5(krb5_error())));
    let (calls, reply) = drive(client.ping(), |plan| {
        if plan.server.port == "1" {
            Err(AttemptError::Retry(Error::Io(io("down"))))
        } else {
            Ok(Message::new(MessageType::PingReply))
        }
    });
    assert_eq!(calls.len(), 2);
    assert_eq!(Client::pinged(reply), Ok(()));
}

fn plan(nat: bool) -> Plan {
    Plan {
        server: server("12345"),
        ccache: Some("FILE:/tmp/cc".to_owned()),
        nat,
        timeout: Duration::from_secs(3),
        request: messages::ping().encode(),
    }
}

const LOCAL: Ipv4 = Ipv4 {
    a: 192,
    b: 0,
    c: 2,
    d: 1,
};
const REMOTE: Ipv4 = Ipv4 {
    a: 192,
    b: 0,
    c: 2,
    d: 2,
};

/// The events of an attempt that goes well.
fn good_events(nat: bool) -> Vec<AttemptEvent> {
    let mut events = vec![
        AttemptEvent::Resolved(2),
        AttemptEvent::IoFailed(io("refused")),
        AttemptEvent::Done,
        AttemptEvent::Done,
        AttemptEvent::Done,
        AttemptEvent::Done,
        AttemptEvent::Done,
        AttemptEvent::Endpoint(Endpoint::V4(LOCAL)),
        AttemptEvent::Endpoint(Endpoint::V4(REMOTE)),
        AttemptEvent::Done,
        AttemptEvent::Done,
        AttemptEvent::Done,
        AttemptEvent::Done,
    ];
    if nat {
        events.push(AttemptEvent::Done);
    }
    events.push(AttemptEvent::Data(vec![1]));
    events.push(AttemptEvent::Done);
    events.push(AttemptEvent::Data(vec![2]));
    events.push(AttemptEvent::Data(
        Message::new(MessageType::PingReply).encode(),
    ));
    events.push(AttemptEvent::Data(vec![3]));
    events.push(AttemptEvent::Done);
    events
}

fn record(contents: &[u8]) -> Address {
    Address {
        addrtype: 2,
        contents: contents.to_vec(),
    }
}

fn good_calls(nat: bool) -> Vec<AttemptCall> {
    let timeout = Duration::from_secs(3);
    let mut calls = vec![
        AttemptCall::Resolve {
            host: "127.0.0.1".to_owned(),
            port: 12345,
        },
        AttemptCall::Connect { index: 0, timeout },
        AttemptCall::Connect { index: 1, timeout },
        AttemptCall::OpenContext,
        AttemptCall::OpenCache(Some("FILE:/tmp/cc".to_owned())),
        AttemptCall::CachePrincipal,
        AttemptCall::ParseName("host/localhost@EXAMPLE.COM".to_owned()),
        AttemptCall::LocalAddress,
        AttemptCall::PeerAddress,
        AttemptCall::NewAuth,
        AttemptCall::SetAddresses {
            local: record(&[192, 0, 2, 1]),
            remote: record(&[192, 0, 2, 2]),
        },
        AttemptCall::SetFlags(4),
        AttemptCall::SendAuth {
            version: "0.1",
            options: 0x2000_0001,
        },
    ];
    if nat {
        calls.push(AttemptCall::SetAddresses {
            local: record(b"dummy"),
            remote: record(b"dummy"),
        });
    }
    calls.push(AttemptCall::Seal(vec![0, 0, 0, 0]));
    calls.push(AttemptCall::Write(vec![1]));
    calls.push(AttemptCall::Read);
    calls.push(AttemptCall::Unseal(vec![2]));
    calls.push(AttemptCall::Seal(vec![0, 0, 0, 5]));
    calls.push(AttemptCall::Write(vec![3]));
    calls
}

/// Runs an attempt on given events, up to its end.
fn attempt(
    plan: Plan,
    events: Vec<AttemptEvent>,
) -> (Vec<AttemptCall>, Result<Message, AttemptError>) {
    let mut calls = Vec::new();
    let mut events = events.into_iter();
    let mut step: AttemptStep = Attempt::start(plan);
    loop {
        let machine = match step {
            Step::Next(machine) => machine,
            Step::Finished(result) => return (calls, result),
        };
        let call = machine.call();
        let event = events.next().expect("an event for every call");
        assert!(answers(&call, &event));
        calls.push(call);
        step = machine.step(event);
    }
}

#[test]
fn an_attempt_makes_its_calls_in_order() {
    for nat in [false, true] {
        let (calls, result) = attempt(plan(nat), good_events(nat));
        assert_eq!(calls, good_calls(nat));
        assert_eq!(result, Ok(Message::new(MessageType::PingReply)));
    }
}

#[test]
fn failures_are_final_in_a_session_only() {
    let calls = good_calls(true);
    for (at, call) in calls.iter().enumerate() {
        let mut events: Vec<AttemptEvent> = good_events(true).into_iter().take(at).collect();
        let krb5_call = answers(call, &AttemptEvent::Krb5Failed(krb5_error()));
        let expected = if krb5_call {
            events.push(AttemptEvent::Krb5Failed(krb5_error()));
            Error::Krb5(krb5_error())
        } else {
            events.push(AttemptEvent::IoFailed(io("lost")));
            Error::Io(io("lost"))
        };
        if at == 1 {
            // The second address is still to be tried.
            continue;
        }
        let (_, result) = attempt(plan(true), events);
        if at >= 18 {
            assert_eq!(result, Ok(Message::new(MessageType::PingReply)));
        } else if at >= 13 {
            assert_eq!(result, Err(AttemptError::Return(expected)));
        } else {
            assert_eq!(result, Err(AttemptError::Retry(expected)));
        }
    }
}

fn io_retry(kind: IoErrorKind, message: &str) -> Result<Message, AttemptError> {
    Err(AttemptError::Retry(Error::Io(IoError {
        kind,
        message: message.to_owned(),
    })))
}

#[test]
fn bad_ports_and_addresses_are_retried() {
    let mut bad = plan(false);
    bad.server.port = "65536".to_owned();
    assert_eq!(
        attempt(bad, Vec::new()).1,
        io_retry(IoErrorKind::InvalidInput, "invalid TCP port 65536")
    );
    assert_eq!(
        attempt(plan(false), vec![AttemptEvent::Resolved(0)]).1,
        io_retry(IoErrorKind::AddrNotAvailable, "no resolved server address")
    );
    let mut events: Vec<AttemptEvent> = good_events(false).into_iter().take(7).collect();
    events.push(AttemptEvent::Endpoint(Endpoint::V6));
    assert_eq!(
        attempt(plan(false), events).1,
        io_retry(
            IoErrorKind::InvalidInput,
            "IPv6 local endpoint is unsupported"
        )
    );
    let mut events: Vec<AttemptEvent> = good_events(false).into_iter().take(8).collect();
    events.push(AttemptEvent::Endpoint(Endpoint::V6));
    assert_eq!(
        attempt(plan(false), events).1,
        io_retry(
            IoErrorKind::InvalidInput,
            "IPv6 remote endpoint is unsupported"
        )
    );
}

#[test]
fn the_last_refused_connection_is_reported() {
    let events = vec![
        AttemptEvent::Resolved(2),
        AttemptEvent::IoFailed(io("first")),
        AttemptEvent::IoFailed(io("second")),
    ];
    let (calls, result) = attempt(plan(false), events);
    assert_eq!(calls.len(), 3);
    assert_eq!(
        result,
        Err(AttemptError::Retry(Error::Io(io("second"))))
    );
}

#[test]
fn malformed_replies_are_final() {
    let mut events: Vec<AttemptEvent> = good_events(false).into_iter().take(16).collect();
    events.push(AttemptEvent::Data(vec![0, 0]));
    assert_eq!(
        attempt(plan(false), events).1,
        Err(AttemptError::Return(Error::Proto(ProtoError::Truncated {
            needed: 4,
            available: 2
        })))
    );
}

fn cred() -> Cred {
    Cred {
        info: CredInfo {
            principal: "user@EXAMPLE.COM".to_owned(),
            uid: 1234,
            starttime: 1,
            endtime: 2,
            renew_till: -3,
            addressless: true,
            crossrealm: true,
        },
        data: vec![4, 5],
        status: 6,
    }
}

#[test]
fn replies_mean_what_they_say() {
    let mut writer = Writer::new();
    cred().pack(&mut writer).expect("pack");
    let reply = Message {
        ty: MessageType::GetReply,
        body: writer.into_inner(),
    };
    assert_eq!(Client::cred_got(Ok(reply)), Ok(cred()));
    let cut = Message::new(MessageType::GetReply);
    assert_eq!(
        Client::cred_got(Ok(cut)),
        Err(Error::Cred(CredError::Protocol(ProtoError::Truncated {
            needed: 4,
            available: 0
        })))
    );
    let refused = || {
        Ok(Message {
            ty: MessageType::ErrorReply,
            body: vec![0xff, 0xff, 0xff, 0xfe, 9],
        })
    };
    assert_eq!(Client::cred_got(refused()), Err(Error::Daemon(-2)));
    assert_eq!(Client::cred_added(refused()), Err(Error::Daemon(-2)));
    assert_eq!(Client::cred_removed(refused()), Err(Error::Daemon(-2)));
    assert_eq!(Client::pinged(refused()), Err(Error::Daemon(-2)));
    let silent = Ok(Message::new(MessageType::ErrorReply));
    assert_eq!(Client::pinged(silent), Err(Error::Daemon(-1)));
    let other = || Ok(Message::new(MessageType::ListReply));
    assert_eq!(
        Client::cred_got(other()),
        Err(Error::UnexpectedReply(MessageType::ListReply))
    );
    assert_eq!(
        Client::cred_removed(other()),
        Err(Error::UnexpectedReply(MessageType::ListReply))
    );
    assert_eq!(
        Client::cred_added(Ok(Message::new(MessageType::AddReply))),
        Ok(())
    );
    assert_eq!(
        Client::cred_removed(Ok(Message::new(MessageType::RemoveReply))),
        Ok(())
    );
    assert_eq!(
        Client::cred_got(Err(Error::Io(io("x")))),
        Err(Error::Io(io("x")))
    );
}

fn tried(exchange: &Exchange) -> Plan {
    match exchange.call() {
        ExchangeCall::Try(plan) => plan,
        ExchangeCall::Sleep(_) => panic!("no attempt"),
    }
}

#[test]
fn an_attempt_goes_to_the_server_it_is_made_for() {
    let client = Client::new(config(1, 2));
    match client.try_request(&server("77"), &messages::ping()) {
        Step::Next(attempt) => assert_eq!(
            attempt.call(),
            AttemptCall::Resolve {
                host: "127.0.0.1".to_owned(),
                port: 77
            }
        ),
        Step::Finished(_) => panic!("ended"),
    }
    match client.try_request(&server("x"), &messages::ping()) {
        Step::Finished(result) => assert_eq!(
            result,
            io_retry(IoErrorKind::InvalidInput, "invalid TCP port x")
        ),
        Step::Next(_) => panic!("goes on"),
    }
}

#[test]
fn requests_carry_what_was_asked() {
    let client = Client::new(config(1, 2)).with_ccache("FILE:x".to_owned());
    assert_eq!(
        tried(&client.get_cred(258)).request,
        [0, 0, 0, 3, 0, 0, 1, 2]
    );
    assert_eq!(
        tried(&client.remove_cred(1)).request,
        [0, 0, 0, 4, 0, 0, 0, 1]
    );
    let plan = tried(&client.clone().request(&messages::dump()));
    assert_eq!(plan.request, [0, 0, 0, 6]);
    assert_eq!(plan.ccache.as_deref(), Some("FILE:x"));
    assert_eq!(plan.server.port, "1");
    assert_eq!(plan.timeout.nanos, 50_000_000);
}

#[test]
fn credentials_are_added_from_the_named_cache() {
    for (own, named, opened) in [
        (None, None, None),
        (Some("own"), None, Some("own")),
        (Some("own"), Some("named"), Some("named")),
        (None, Some("named"), Some("named")),
    ] {
        let mut client = Client::new(config(1, 2));
        if let Some(name) = own {
            client = client.with_ccache(name.to_owned());
        }
        let adding = client.add_cred(named);
        assert_eq!(adding.call(), AddCall::OpenContext);
        let adding = match adding.step(AddEvent::Done) {
            Step::Next(adding) => adding,
            Step::Finished(_) => panic!("ended"),
        };
        assert_eq!(adding.call(), AddCall::OpenCache(opened.map(str::to_owned)));
        let adding = match adding.step(AddEvent::Done) {
            Step::Next(adding) => adding,
            Step::Finished(_) => panic!("ended"),
        };
        assert_eq!(adding.call(), AddCall::ReadBlob);
        let exchange = match adding.step(AddEvent::Blob(vec![7])) {
            Step::Finished(Ok(exchange)) => exchange,
            _ => panic!("no exchange"),
        };
        let plan = tried(&exchange);
        assert_eq!(plan.request, [0, 0, 0, 2, 0, 0, 0, 1, 7]);
        assert_eq!(plan.ccache.as_deref(), opened);
    }
}

#[test]
fn caches_that_cannot_be_read_are_reported() {
    let client = Client::new(config(1, 2));
    let failed = || AddEvent::Failed(krb5_error());
    let adding = client.add_cred(None);
    assert!(auks::client::answers(&adding.call(), &failed()));
    match adding.step(failed()) {
        Step::Finished(Err(error)) => assert_eq!(error, Error::Krb5(krb5_error())),
        _ => panic!("no failure"),
    }
    let adding = match client.add_cred(None).step(AddEvent::Done) {
        Step::Next(adding) => adding,
        Step::Finished(_) => panic!("ended"),
    };
    match adding.step(failed()) {
        Step::Finished(Err(error)) => assert_eq!(
            error,
            Error::NoCcache("krb5_test failed (22): broken".to_owned())
        ),
        _ => panic!("no failure"),
    }
}
