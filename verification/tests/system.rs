//! Texts, the command line and the switch of users.
use auks::cli::{command, cred_report, invocation, Command, Invocation};
use auks::cred::{Cred, CredInfo};
use auks::machine::Step;
use auks::privilege::{answers, as_user, AsUser, Ending, UserCall, UserEvent};
use auks::text::{
    c_text, decimal, eq_ignore_case, nul_position, parse_u16, parse_u32, signed_decimal, split_once, strip_prefix,
    utf8_text, Utf8Error,
};

#[test]
fn texts_are_taken_apart() {
    assert_eq!(strip_prefix("default=x", "default="), Some("x"));
    assert_eq!(strip_prefix("defaul", "default="), None);
    assert_eq!(split_once("a@b@c", '@'), Some(("a", "b@c")));
    assert_eq!(split_once("abc", '@'), None);
    assert!(eq_ignore_case("aZ-\u{e9}", "Az-\u{e9}"));
    assert!(!eq_ignore_case("\u{e9}", "\u{c9}"));
    assert!(!eq_ignore_case("[", "{"));
    assert!(!eq_ignore_case("a", "ab"));
    assert_eq!(nul_position(b"ab\0c\0"), 2);
    assert_eq!(c_text(b"ab"), "ab");
    assert_eq!(c_text(b"a\xffb\0c"), "a\u{fffd}b");
    assert_eq!(utf8_text("caf\u{e9}".as_bytes()), Ok("caf\u{e9}".to_owned()));
    assert_eq!(
        utf8_text(b"ab\xe2\x82"),
        Err(Utf8Error {
            valid_up_to: 2,
            error_len: None
        })
    );
    assert_eq!(
        utf8_text(b"a\xe2\x28"),
        Err(Utf8Error {
            valid_up_to: 1,
            error_len: Some(1)
        })
    );
}

#[test]
fn numbers_are_read_and_written() {
    assert_eq!(parse_u32("4294967295"), Some(u32::MAX));
    assert_eq!(parse_u32("4294967296"), None);
    assert_eq!(parse_u32("+1"), Some(1));
    assert_eq!(parse_u32("007"), Some(7));
    for text in ["", "+", "-1", "1 ", "0x1", "++1", "\u{661}"] {
        assert_eq!(parse_u32(text), None);
    }
    assert_eq!(parse_u16("65535"), Some(u16::MAX));
    assert_eq!(parse_u16("65536"), None);
    assert_eq!(decimal(0), "0");
    assert_eq!(decimal(u64::MAX), "18446744073709551615");
    assert_eq!(signed_decimal(i32::MIN), "-2147483648");
    assert_eq!(signed_decimal(70), "70");
    assert_eq!(parse_u32(&decimal(123456)), Some(123456));
}

fn strings(values: &[&str]) -> Vec<String> {
    values.iter().map(|value| (*value).to_owned()).collect()
}

fn invoked(path: &str, operation: &str, value: Option<&str>) -> Option<Invocation> {
    Some(Invocation {
        config_path: path.to_owned(),
        operation: operation.to_owned(),
        value: value.map(str::to_owned),
    })
}

#[test]
fn the_command_line_is_read() {
    let read = |values: &[&str]| invocation(&strings(values));
    assert_eq!(read(&[]), None);
    assert_eq!(read(&["-c"]), None);
    assert_eq!(read(&["-c", "x"]), None);
    assert_eq!(read(&["ping"]), invoked("/conf/auks.conf", "ping", None));
    assert_eq!(
        read(&["-c", "a", "-c", "b", "get", "5", "6"]),
        invoked("b", "get", Some("5"))
    );
    assert_eq!(
        read(&["add", "-c"]),
        invoked("/conf/auks.conf", "add", Some("-c"))
    );
}

#[test]
fn operations_are_found() {
    let find = |operation: &str, value: Option<&str>| command(operation, value.map(str::to_owned));
    assert_eq!(find("ping", Some("x")), Ok(Command::Ping));
    assert_eq!(find("add", None), Ok(Command::Add(None)));
    assert_eq!(
        find("add", Some("FILE:x")),
        Ok(Command::Add(Some("FILE:x".to_owned())))
    );
    assert_eq!(find("get", Some("12")), Ok(Command::Get(12)));
    assert_eq!(find("get", None), Err("get requires a numeric UID"));
    assert_eq!(find("remove", Some("12")), Ok(Command::Remove(12)));
    assert_eq!(
        find("remove", Some("me")),
        Err("remove requires a numeric UID")
    );
    assert_eq!(find("dump", None), Err("unknown operation"));
}

#[test]
fn credentials_are_told_in_one_line() {
    let cred = Cred {
        info: CredInfo {
            principal: "user@EXAMPLE.COM".to_owned(),
            uid: 1234,
            starttime: 1,
            endtime: -2,
            renew_till: 3,
            addressless: false,
            crossrealm: false,
        },
        data: Vec::new(),
        status: 0,
    };
    assert_eq!(
        cred_report(&cred),
        "principal=user@EXAMPLE.COM uid=1234 start=1 end=-2 renew_till=3"
    );
}

fn switch(events: &[UserEvent]) -> (Vec<UserCall>, Result<Ending, i32>) {
    let mut machine: AsUser = as_user(1000, 100);
    let mut calls = Vec::new();
    for event in events {
        assert!(answers(machine.call(), *event));
        calls.push(machine.call());
        match machine.step(*event) {
            Step::Next(next) => machine = next,
            Step::Finished(result) => return (calls, result),
        }
    }
    panic!("the machine goes on");
}

#[test]
fn functions_run_as_the_user_and_the_user_is_left() {
    let (calls, result) = switch(&[
        UserEvent::Status(0),
        UserEvent::Status(0),
        UserEvent::Ran { panicked: true },
        UserEvent::Status(0),
        UserEvent::Status(0),
    ]);
    assert_eq!(
        calls,
        [
            UserCall::EnterGroup(100),
            UserCall::EnterUser(1000),
            UserCall::Run,
            UserCall::LeaveUser,
            UserCall::LeaveGroup,
        ]
    );
    assert_eq!(result, Ok(Ending::Panicked));
    let (calls, result) = switch(&[
        UserEvent::Status(0),
        UserEvent::Status(0),
        UserEvent::Ran { panicked: false },
        UserEvent::Status(-1),
        UserEvent::Status(0),
        UserEvent::Errno(1),
    ]);
    assert_eq!(calls[4], UserCall::LeaveGroup);
    assert_eq!(result, Err(1));
}

#[test]
fn refused_switches_are_undone() {
    let (calls, result) = switch(&[
        UserEvent::Status(0),
        UserEvent::Status(-1),
        UserEvent::Errno(11),
        UserEvent::Status(-1),
    ]);
    assert_eq!(calls[3], UserCall::LeaveGroup);
    assert_eq!(result, Err(11));
    let (calls, result) = switch(&[UserEvent::Status(-1), UserEvent::Errno(1)]);
    assert_eq!(calls, [UserCall::EnterGroup(100), UserCall::LastError]);
    assert_eq!(result, Err(1));
}
