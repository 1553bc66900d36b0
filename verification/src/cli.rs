//! The command line of the client.
use crate::cred::{Cred, CredView};
use crate::text::{self, parse_u32, str_eq};
use vstd::prelude::*;

verus! {

/// Where the configuration is, if the command line does not say.
pub const DEFAULT_CONFIG: &'static str = "/conf/auks.conf";

/// What the command line asks for.
#[derive(Debug, PartialEq, Eq)]
pub struct Invocation {
    /// Configuration file.
    pub config_path: String,
    /// Name of the operation.
    pub operation: String,
    /// Argument of the operation, if any.
    pub value: Option<String>,
}

/// What the command line asks for, as a value.
pub struct InvocationView {
    pub config_path: Seq<char>,
    pub operation: Seq<char>,
    pub value: Option<Seq<char>>,
}

impl View for Invocation {
    type V = InvocationView;

    open spec fn view(&self) -> InvocationView {
        InvocationView {
            config_path: self.config_path@,
            operation: self.operation@,
            value: crate::config::optional_text(self.value),
        }
    }
}

/// The argument at a position, if there is one.
pub open spec fn argument_at(args: Seq<String>, at: int) -> Option<Seq<char>> {
    if 0 <= at < args.len() {
        Some(args[at]@)
    } else {
        None
    }
}

/// The invocation from position `at` on. `-c` names the configuration file, and
/// the first other argument is the operation.
pub open spec fn invoked(args: Seq<String>, at: int, config_path: Seq<char>) -> Option<
    InvocationView,
>
    decreases args.len() + 1 - at,
{
    if at >= args.len() {
        None
    } else if args[at]@ == "-c"@ {
        invoked(
            args,
            at + 2,
            match argument_at(args, at + 1) {
                Some(path) => path,
                None => DEFAULT_CONFIG@,
            },
        )
    } else {
        Some(
            InvocationView {
                config_path,
                operation: args[at]@,
                value: argument_at(args, at + 1),
            },
        )
    }
}

/// Reads the arguments of the command line, behind the name of the program.
/// There is none where no operation is named.
pub fn invocation(args: &[String]) -> (invocation: Option<Invocation>)
    ensures
        match invoked(args@, 0, DEFAULT_CONFIG@) {
            Some(expected) => invocation is Some && invocation->Some_0@ == expected,
            None => invocation is None,
        },
{
    let mut config_path = DEFAULT_CONFIG.to_owned();
    let mut at: usize = 0;
    while at < args.len()
        invariant
            at <= args@.len(),
            invoked(args@, 0, DEFAULT_CONFIG@) == invoked(args@, at as int, config_path@),
        decreases args@.len() - at,
    {
        let behind = at + 1 < args.len();
        if !str_eq(args[at].as_str(), "-c") {
            return Some(
                Invocation {
                    config_path,
                    operation: args[at].clone(),
                    value: if behind {
                        Some(args[at + 1].clone())
                    } else {
                        None
                    },
                },
            );
        }
        if !behind {
            assert(invoked(args@, at + 2, DEFAULT_CONFIG@) is None);
            return None;
        }
        config_path = args[at + 1].clone();
        at = at + 2;
    }
    None
}

/// An operation of the client.
#[derive(Debug, PartialEq, Eq)]
pub enum Command {
    /// Check that the daemon answers.
    Ping,
    /// Add the credential of a cache.
    Add(Option<String>),
    /// Retrieve the credential of a user.
    Get(u32),
    /// Remove the credential of a user.
    Remove(u32),
}

/// An operation as a value.
pub enum CommandView {
    Ping,
    Add(Option<Seq<char>>),
    Get(u32),
    Remove(u32),
}

impl View for Command {
    type V = CommandView;

    open spec fn view(&self) -> CommandView {
        match self {
            Command::Ping => CommandView::Ping,
            Command::Add(cache) => CommandView::Add(crate::config::optional_text(*cache)),
            Command::Get(uid) => CommandView::Get(*uid),
            Command::Remove(uid) => CommandView::Remove(*uid),
        }
    }
}

/// The user that an argument names.
pub open spec fn named_user(value: Option<Seq<char>>) -> Option<u32> {
    match value {
        Some(value) => match text::parsed_number(value, u32::MAX as nat) {
            Some(uid) => Some(uid as u32),
            None => None,
        },
        None => None,
    }
}

/// The operation that is asked for, or what to say where there is none.
pub open spec fn commanded(operation: Seq<char>, value: Option<Seq<char>>) -> Result<
    CommandView,
    Seq<char>,
> {
    if operation == "ping"@ {
        Ok(CommandView::Ping)
    } else if operation == "add"@ {
        Ok(CommandView::Add(value))
    } else if operation == "get"@ {
        match named_user(value) {
            Some(uid) => Ok(CommandView::Get(uid)),
            None => Err("get requires a numeric UID"@),
        }
    } else if operation == "remove"@ {
        match named_user(value) {
            Some(uid) => Ok(CommandView::Remove(uid)),
            None => Err("remove requires a numeric UID"@),
        }
    } else {
        Err("unknown operation"@)
    }
}

fn user(value: &Option<String>) -> (uid: Option<u32>)
    ensures
        uid == named_user(crate::config::optional_text(*value)),
{
    match value {
        Some(value) => parse_u32(value.as_str()),
        None => None,
    }
}

/// Finds the operation that is asked for, or what to say where there is none.
pub fn command(operation: &str, value: Option<String>) -> (command: Result<Command, &'static str>)
    ensures
        match commanded(operation@, crate::config::optional_text(value)) {
            Ok(expected) => command is Ok && command->Ok_0@ == expected,
            Err(expected) => command is Err && command->Err_0@ == expected,
        },
{
    if str_eq(operation, "ping") {
        return Ok(Command::Ping);
    }
    if str_eq(operation, "add") {
        return Ok(Command::Add(value));
    }
    if str_eq(operation, "get") {
        return match user(&value) {
            Some(uid) => Ok(Command::Get(uid)),
            None => Err("get requires a numeric UID"),
        };
    }
    if str_eq(operation, "remove") {
        return match user(&value) {
            Some(uid) => Ok(Command::Remove(uid)),
            None => Err("remove requires a numeric UID"),
        };
    }
    Err("unknown operation")
}

/// What is told of a credential.
pub open spec fn cred_line(cred: CredView) -> Seq<char> {
    "principal="@ + cred.info.principal + " uid="@ + text::nat_text(cred.info.uid as nat)
        + " start="@ + text::int_text(cred.info.starttime as int) + " end="@ + text::int_text(
        cred.info.endtime as int,
    ) + " renew_till="@ + text::int_text(cred.info.renew_till as int)
}

/// Tells of a credential in one line.
pub fn cred_report(cred: &Cred) -> (line: String)
    ensures
        line@ == cred_line(cred@),
{
    let mut line = "principal=".to_owned();
    line.append(cred.info.principal.as_str());
    line.append(" uid=");
    line.append(text::decimal(cred.info.uid as u64).as_str());
    line.append(" start=");
    line.append(text::signed_decimal(cred.info.starttime).as_str());
    line.append(" end=");
    line.append(text::signed_decimal(cred.info.endtime).as_str());
    line.append(" renew_till=");
    line.append(text::signed_decimal(cred.info.renew_till).as_str());
    line
}

/// Options before the operation decide the configuration file alone: the last
/// one wins.
pub proof fn law_last_config_option_wins(args: Seq<String>, at: int, path: Seq<char>)
    requires
        0 <= at,
        at + 1 < args.len(),
        args[at]@ == "-c"@,
    ensures
        invoked(args, at, path) == invoked(args, at + 2, args[at + 1]@),
{
}

/// The operations of the client: `ping` takes nothing, `add` an optional cache,
/// and `get` and `remove` the number of a user. Anything else is refused in
/// words.
pub proof fn law_operations(value: Option<Seq<char>>, uid: u32, operation: Seq<char>)
    ensures
        commanded("ping"@, value) == Ok::<_, Seq<char>>(CommandView::Ping),
        commanded("add"@, value) == Ok::<_, Seq<char>>(CommandView::Add(value)),
        value matches Some(digits) && text::parsed_number(digits, 4294967295) == Some(uid as nat)
            ==> commanded("get"@, value) == Ok::<_, Seq<char>>(CommandView::Get(uid)) && commanded(
            "remove"@,
            value,
        ) == Ok::<_, Seq<char>>(CommandView::Remove(uid)),
        value is None || text::parsed_number(value->Some_0, 4294967295) is None ==> commanded(
            "get"@,
            value,
        ) == Err::<CommandView, _>("get requires a numeric UID"@) && commanded("remove"@, value)
            == Err::<CommandView, _>("remove requires a numeric UID"@),
        operation != "ping"@ && operation != "add"@ && operation != "get"@ && operation
            != "remove"@ ==> commanded(operation, value) == Err::<CommandView, _>(
            "unknown operation"@,
        ),
{
    reveal_strlit("ping");
    reveal_strlit("add");
    reveal_strlit("get");
    reveal_strlit("remove");
    assert("ping"@.len() == 4 && "add"@.len() == 3 && "get"@.len() == 3 && "remove"@.len() == 6);
    assert("add"@[0] == 'a' && "get"@[0] == 'g');
}

/// Without an option the configuration is the default one, and the arguments
/// from the first one on are the operation and its value. Nothing behind them is
/// read, and without an operation there is no invocation.
pub proof fn law_operation_and_value(args: Seq<String>, path: Seq<char>)
    ensures
        args.len() == 0 ==> invoked(args, 0, path) is None,
        args.len() == 1 && args[0]@ == "-c"@ ==> invoked(args, 0, path) is None,
        args.len() == 2 && args[0]@ == "-c"@ ==> invoked(args, 0, path) is None,
        args.len() > 0 && args[0]@ != "-c"@ ==> (invoked(args, 0, path) matches Some(invocation) && {
            &&& invocation.config_path == path
            &&& invocation.operation == args[0]@
            &&& args.len() > 1 ==> invocation.value == Some(args[1]@)
            &&& args.len() == 1 ==> invocation.value is None
        }),
        args.len() > 2 && args[0]@ == "-c"@ && args[2]@ != "-c"@ ==> (invoked(args, 0, path) matches
            Some(invocation) && {
            &&& invocation.config_path == args[1]@
            &&& invocation.operation == args[2]@
            &&& args.len() > 3 ==> invocation.value == Some(args[3]@)
            &&& args.len() == 3 ==> invocation.value is None
        }),
        DEFAULT_CONFIG@ == "/conf/auks.conf"@,
{
    reveal_with_fuel(invoked, 3);
}

/// The line on a credential names, in this order, its principal, its user, its
/// start and end, and its renewal deadline, and the number of the user reads
/// back as it is.
pub proof fn law_line_on_a_credential(cred: CredView)
    ensures
        ({
            let uid = text::nat_text(cred.info.uid as nat);
            &&& cred_line(cred) == "principal="@ + cred.info.principal + " uid="@ + uid
                + " start="@ + text::int_text(cred.info.starttime as int) + " end="@
                + text::int_text(cred.info.endtime as int) + " renew_till="@ + text::int_text(
                cred.info.renew_till as int,
            )
            &&& text::parsed_number(uid, 4294967295) == Some(cred.info.uid as nat)
        }),
{
    text::law_decimal_round_trip(cred.info.uid as nat, 4294967295);
}

} // verus!
