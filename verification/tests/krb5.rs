//! Kerberos values, and the machines that serialize, store and read them.
use auks::cred_blob::{
    answers, blob_info, export_order, get, get_fwd, parse, store, BlobCall, BlobEvent, BlobInfo,
    ForwardBlob, GetBlob, ParseBlob, StoreBlob,
};
use auks::krb5::{
    c_string, check, dummy_address, error_for, inet_address, new_unique_ccache, sendauth_options,
    switch_supported, switch_to, switched, unique_ccache_like, Creds, CredsIter, Error, Ipv4,
    Principal, SwitchCache, TicketTimes, UniqueCache, KRB5_CC_END,
};
use auks::machine::Step;

fn principal(name: &str, realm: &str) -> Principal {
    let mut bytes = name.as_bytes().to_vec();
    bytes.push(0);
    Principal {
        name: Ok(bytes),
        realm: realm.as_bytes().to_vec(),
    }
}

fn failure() -> Error {
    error_for(-1765328189, &Some(b"No credentials cache found\0".to_vec()), "krb5_cc_resolve")
}

fn ticket(server: &str) -> Creds {
    Creds {
        client: Some(Ok(principal("user@EXAMPLE.COM", "EXAMPLE.COM"))),
        server: Some(Ok(principal(server, "EXAMPLE.COM"))),
        authtime: 1,
        starttime: 20,
        endtime: 300,
        renew_till: 4000,
        ticket_flags: 0x40e0_0000,
        addresses: false,
    }
}

#[test]
fn principal_roundtrip() {
    let principal = principal("user@EXAMPLE.COM", "EXAMPLE.COM");
    assert_eq!(principal.unparse().unwrap(), "user@EXAMPLE.COM");
    assert_eq!(principal.realm().unwrap(), "EXAMPLE.COM");
    assert_eq!(principal.copy(), principal);
}

#[test]
fn names_that_are_not_utf8_are_replaced() {
    let principal = Principal {
        name: Ok(b"us\xffer\0".to_vec()),
        realm: b"R\xc3\x28".to_vec(),
    };
    assert_eq!(principal.unparse().unwrap(), "us\u{fffd}er");
    assert_eq!(principal.realm().unwrap(), "R\u{fffd}(");
    let broken = Principal {
        name: Err(failure()),
        realm: Vec::new(),
    };
    assert_eq!(broken.unparse(), Err(failure()));
    assert_eq!(broken.copy(), broken);
}

#[test]
fn codes_become_errors_with_words() {
    assert_eq!(check(0, &None, "krb5_cc_close"), Ok(()));
    let error = check(-1765328189, &None, "krb5_cc_resolve").unwrap_err();
    assert_eq!(error.message, "Kerberos error -1765328189");
    assert!(error.is_krb5());
    assert_eq!(
        failure().text(),
        "krb5_cc_resolve failed (-1765328189): No credentials cache found"
    );
    assert_eq!(failure().clone(), failure());
    let input = Error::input("op", "bad".to_owned());
    assert!(!input.is_krb5());
    assert_eq!(input.text(), "op failed (-1): bad");
}

#[test]
fn c_strings_hold_no_nul() {
    assert_eq!(c_string("abc", "op"), Ok(b"abc\0".to_vec()));
    let error = c_string("caf\u{e9}\0x", "krb5_parse_name").unwrap_err();
    assert_eq!(error.code, -1);
    assert_eq!(error.op, "krb5_parse_name");
    assert_eq!(
        error.message,
        "nul byte found in provided data at position: 5"
    );
}

#[test]
fn addresses_have_their_records() {
    let inet = inet_address(Ipv4 {
        a: 192,
        b: 0,
        c: 2,
        d: 7,
    });
    assert_eq!(inet.addrtype, 2);
    assert_eq!(inet.contents, [192, 0, 2, 7]);
    assert_eq!(dummy_address().addrtype, 2);
    assert_eq!(dummy_address().contents, b"dummy");
    assert_eq!(sendauth_options(), 0x2000_0001);
}

#[test]
fn credentials_tell_their_fields() {
    let creds = ticket("krbtgt/EXAMPLE.COM@EXAMPLE.COM");
    assert_eq!(
        creds.times(),
        TicketTimes {
            authtime: 1,
            start: 20,
            end: 300,
            renew_till: 4000
        }
    );
    assert_eq!(creds.flags(), 0x40e0_0000);
    assert!(!creds.has_addresses());
    assert_eq!(creds.client().unwrap().realm().unwrap(), "EXAMPLE.COM");
    let bare = Creds {
        client: None,
        server: None,
        ticket_flags: -1,
        ..ticket("")
    };
    assert_eq!(bare.flags(), u32::MAX);
    assert_eq!(
        bare.client().unwrap_err().text(),
        "krb5_creds.client failed (-1): credential has no client principal"
    );
    assert_eq!(
        bare.server().unwrap_err().text(),
        "krb5_creds.server failed (-1): credential has no server principal"
    );
    assert!(!bare.is_tgt("EXAMPLE.COM"));
    assert!(!bare.is_crossrealm_tgt("EXAMPLE.COM"));
}

#[test]
fn tickets_are_told_apart() {
    let local = ticket("krbtgt/EXAMPLE.COM@EXAMPLE.COM");
    assert!(local.is_tgt("EXAMPLE.COM"));
    assert!(!local.is_crossrealm_tgt("EXAMPLE.COM"));
    let cross = ticket("krbtgt/OTHER.ORG@EXAMPLE.COM");
    assert!(!cross.is_tgt("EXAMPLE.COM"));
    assert!(cross.is_crossrealm_tgt("EXAMPLE.COM"));
    assert!(!cross.is_crossrealm_tgt("OTHER.ORG"));
    let service = ticket("host/node@EXAMPLE.COM");
    assert!(!service.is_tgt("EXAMPLE.COM"));
    assert!(!service.is_crossrealm_tgt("EXAMPLE.COM"));
    assert!(!ticket("krbtgt/EXAMPLE.COM").is_crossrealm_tgt("EXAMPLE.COM"));
}

#[test]
fn realms_with_an_at_sign_are_no_targets() {
    let odd = ticket("krbtgt/A@A@A@A");
    assert!(odd.is_tgt("A@A"));
    assert!(!odd.is_crossrealm_tgt("A@A"));
    assert!(!ticket("krbtgt/A@B@C").is_crossrealm_tgt("C"));
}

#[test]
fn walks_finish_once() {
    let mut walk = CredsIter::new();
    assert!(!walk.is_finished());
    assert_eq!(walk.next(0, &None, ticket("a")), Some(Ok(ticket("a"))));
    assert!(!walk.is_finished());
    assert_eq!(walk.next(KRB5_CC_END, &None, ticket("a")), None);
    assert_eq!(walk.next(0, &None, ticket("b")), None);
    assert!(walk.is_finished());
    assert!(!walk.finish());

    let mut walk = CredsIter::new();
    let item = walk.next(13, &None, ticket("a"));
    assert_eq!(
        item.unwrap().unwrap_err().text(),
        "krb5_cc_next_cred failed (13): Kerberos error 13"
    );
    assert!(walk.is_finished());

    let mut walk = CredsIter::new();
    assert!(walk.finish());
    assert!(!walk.finish());
}

#[test]
fn unique_caches_take_a_type() {
    assert_eq!(
        new_unique_ccache(Some("FILE")),
        UniqueCache::Create(b"FILE\0".to_vec())
    );
    assert_eq!(new_unique_ccache(None), UniqueCache::OpenDefault);
    assert_eq!(
        unique_ccache_like(Ok(b"KEYRING\0".to_vec())),
        UniqueCache::Create(b"KEYRING\0".to_vec())
    );
    assert_eq!(
        unique_ccache_like(Ok(b"\xff\0".to_vec())),
        UniqueCache::Create(b"\0".to_vec())
    );
    assert_eq!(
        unique_ccache_like(Err(failure())),
        UniqueCache::Failed(failure())
    );
    assert!(matches!(
        new_unique_ccache(Some("a\0b")),
        UniqueCache::Failed(_)
    ));
}

#[test]
fn caches_are_switched_where_they_have_collections() {
    assert_eq!(switch_to(b"DIR\0"), SwitchCache::Ask(b"DIR\0".to_vec()));
    assert_eq!(switch_supported(0), SwitchCache::Finished(Ok(false)));
    assert_eq!(switch_supported(1), SwitchCache::Switch);
    assert_eq!(switched(0, &None), Ok(true));
    assert_eq!(
        switched(5, &Some(b"no\0".to_vec())).unwrap_err().text(),
        "krb5_cc_switch failed (5): no"
    );
}

#[test]
fn local_tickets_are_exported_first() {
    let creds = vec![
        ticket("host/node@EXAMPLE.COM"),
        ticket("krbtgt/OTHER.ORG@EXAMPLE.COM"),
        ticket("krbtgt/EXAMPLE.COM@EXAMPLE.COM"),
        ticket("krbtgt/THIRD.NET@EXAMPLE.COM"),
        ticket("krbtgt/EXAMPLE.COM@EXAMPLE.COM"),
    ];
    assert_eq!(export_order(&creds, "EXAMPLE.COM"), Ok(vec![2, 1, 3, 4]));
    assert_eq!(
        export_order(&creds, "OTHER.ORG").unwrap_err().text(),
        "cred_blob::get failed (-1): no local TGT in cache"
    );
}

fn advance<M, T>(step: Step<M, T, Error>) -> M {
    match step {
        Step::Next(machine) => machine,
        Step::Finished(_) => panic!("the machine ended"),
    }
}

fn finish<M, T>(step: Step<M, T, Error>) -> Result<T, Error> {
    match step {
        Step::Next(_) => panic!("the machine goes on"),
        Step::Finished(result) => result,
    }
}

#[test]
fn caches_are_serialized_in_order() {
    let machine: GetBlob = get();
    assert_eq!(machine.call(), BlobCall::CachePrincipal);
    let event = BlobEvent::Principal(principal("user@EXAMPLE.COM", "EXAMPLE.COM"));
    assert!(answers(&machine.call(), &event));
    assert!(!answers(&machine.call(), &BlobEvent::Done));
    let machine = advance(machine.step(event));
    assert_eq!(machine.call(), BlobCall::ListCreds);
    let machine = advance(machine.step(BlobEvent::Creds(vec![
        ticket("krbtgt/OTHER.ORG@EXAMPLE.COM"),
        ticket("krbtgt/EXAMPLE.COM@EXAMPLE.COM"),
    ])));
    assert_eq!(machine.call(), BlobCall::NewAuth);
    let machine = advance(machine.step(BlobEvent::Done));
    assert_eq!(machine.call(), BlobCall::SetFlags(0));
    let machine = advance(machine.step(BlobEvent::Done));
    assert_eq!(machine.call(), BlobCall::MakeCreds(vec![1, 0]));
    assert_eq!(
        finish(machine.step(BlobEvent::Data(Some(vec![1, 2])))),
        Ok(vec![1, 2])
    );
    let late = GetBlob::Make { order: vec![0] };
    assert_eq!(
        finish(late.step(BlobEvent::Data(None))).unwrap_err().text(),
        "krb5_mk_ncred failed (-1): Kerberos returned a null data pointer"
    );
    assert_eq!(
        finish(get().step(BlobEvent::Failed(failure()))),
        Err(failure())
    );
}

#[test]
fn forwarded_credentials_are_serialized() {
    let mut machine = advance(get_fwd("host/node"));
    let mut calls = Vec::new();
    let events = vec![
        BlobEvent::Principal(principal("user@EXAMPLE.COM", "EXAMPLE.COM")),
        BlobEvent::Done,
        BlobEvent::Done,
        BlobEvent::Done,
        BlobEvent::Done,
        BlobEvent::Creds(vec![ticket("krbtgt/EXAMPLE.COM@EXAMPLE.COM")]),
        BlobEvent::Done,
    ];
    for event in events {
        assert!(answers(&machine.call(), &event));
        calls.push(machine.call());
        machine = advance(machine.step(event));
    }
    assert_eq!(
        calls,
        vec![
            BlobCall::CachePrincipal,
            BlobCall::NewAuth,
            BlobCall::SetFlags(2),
            BlobCall::Forward {
                server: b"host/node\0".to_vec(),
                options: 0x2000_0000
            },
            BlobCall::SetFlags(0),
            BlobCall::ReadForwarded,
            BlobCall::SetFlags(0),
        ]
    );
    assert_eq!(machine.call(), BlobCall::MakeOne(0));
    assert_eq!(
        finish(machine.step(BlobEvent::Data(Some(vec![5])))),
        Ok(vec![5])
    );
    assert_eq!(
        finish(ForwardBlob::Read.step(BlobEvent::Creds(Vec::new())))
            .unwrap_err()
            .text(),
        "krb5_mk_1cred failed (-1): credential list is empty"
    );
    assert_eq!(
        finish(get_fwd("a\0b")).unwrap_err().op,
        "krb5_fwd_tgt_creds"
    );
}

#[test]
fn every_credential_of_a_blob_is_stored_once() {
    let mut machine: StoreBlob = store(b"blob");
    let mut calls = Vec::new();
    let events = vec![
        BlobEvent::Done,
        BlobEvent::Done,
        BlobEvent::Creds(vec![ticket("a"), ticket("b"), ticket("c")]),
        BlobEvent::Done,
        BlobEvent::Done,
        BlobEvent::Done,
    ];
    for event in events {
        assert!(answers(&machine.call(), &event));
        calls.push(machine.call());
        machine = advance(machine.step(event));
    }
    calls.push(machine.call());
    assert_eq!(finish(machine.step(BlobEvent::Done)), Ok(()));
    assert_eq!(
        calls,
        vec![
            BlobCall::NewAuth,
            BlobCall::SetFlags(0),
            BlobCall::ReadCreds(b"blob".to_vec()),
            BlobCall::InitializeCache(0),
            BlobCall::StoreCreds(0),
            BlobCall::StoreCreds(1),
            BlobCall::StoreCreds(2),
        ]
    );
    let empty = advance(advance(store(b"").step(BlobEvent::Done)).step(BlobEvent::Done));
    assert_eq!(
        finish(empty.step(BlobEvent::Creds(Vec::new())))
            .unwrap_err()
            .text(),
        "krb5_rd_cred failed (-1): credential list is empty"
    );
}

#[test]
fn garbage_blob_is_rejected() {
    let machine: ParseBlob = parse(b"garbage");
    let machine = advance(machine.step(BlobEvent::Done));
    let machine = advance(machine.step(BlobEvent::Done));
    assert_eq!(machine.call(), BlobCall::ReadCreds(b"garbage".to_vec()));
    let event = BlobEvent::Failed(error_for(1859794438, &None, "krb5_rd_cred"));
    let error = finish(machine.step(event)).unwrap_err();
    assert!(!error.message.is_empty());
}

#[test]
fn blobs_tell_the_bounds_of_their_times() {
    let creds = vec![
        Creds {
            addresses: true,
            ..ticket("a")
        },
        Creds {
            starttime: 10,
            endtime: 500,
            renew_till: 3000,
            ..ticket("b")
        },
        Creds {
            starttime: 30,
            endtime: 200,
            renew_till: 5000,
            ..ticket("c")
        },
    ];
    let info = BlobInfo {
        principal: "user@EXAMPLE.COM".to_owned(),
        start: 10,
        end: 200,
        renew_till: 5000,
        addressless: false,
        crossrealm: true,
    };
    assert_eq!(blob_info(&creds), Ok(info.clone()));
    let machine = ParseBlob::Read { blob: Vec::new() };
    assert_eq!(finish(machine.step(BlobEvent::Creds(creds))), Ok(info));

    let one = blob_info(&vec![ticket("a")]).unwrap();
    assert!(one.addressless);
    assert!(!one.crossrealm);
    assert_eq!((one.start, one.end, one.renew_till), (20, 300, 4000));
    let nameless = Creds {
        client: Some(Err(failure())),
        ..ticket("a")
    };
    assert_eq!(blob_info(&vec![nameless]), Err(failure()));
}
