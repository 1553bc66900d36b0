//! The AUKS client: what it asks the daemon, and what it makes of the answers.
use crate::attempt::{
    self, Attempt, AttemptCallView, AttemptErrorView, AttemptEventView, AttemptStep, AttemptView,
    Plan, PlanView,
};
use crate::config::{self, copy_text, ClientConfig, ClientConfigView, Server, ServerView};
use crate::cred::{Cred, CredError, CredView};
use crate::exchange::{self, Exchange, ExchangeView};
use crate::krb5;
use crate::machine::{self, Machine, Step, StepView};
use crate::messages;
use crate::proto::{self, Message, MessageType, MessageView, ProtoError};
use vstd::prelude::*;

verus! {

/// The kind of a network or stream failure.
#[derive(Debug, Clone, Copy, PartialEq, Eq, Structural)]
pub enum IoErrorKind {
    /// Nothing was found.
    NotFound,
    /// The operation was not permitted.
    PermissionDenied,
    /// The connection was refused.
    ConnectionRefused,
    /// The connection was reset.
    ConnectionReset,
    /// The host could not be reached.
    HostUnreachable,
    /// The network could not be reached.
    NetworkUnreachable,
    /// The connection was aborted.
    ConnectionAborted,
    /// There was no connection.
    NotConnected,
    /// The address was in use.
    AddrInUse,
    /// No address was available.
    AddrNotAvailable,
    /// The network was down.
    NetworkDown,
    /// The other end was closed.
    BrokenPipe,
    /// The operation would have had to wait.
    WouldBlock,
    /// A parameter was wrong.
    InvalidInput,
    /// Data was malformed.
    InvalidData,
    /// The time limit was reached.
    TimedOut,
    /// The operation was interrupted.
    Interrupted,
    /// The operation is not supported.
    Unsupported,
    /// The data ended too early.
    UnexpectedEof,
    /// Memory was short.
    OutOfMemory,
    /// Something was there already.
    AlreadyExists,
    /// A path named no directory.
    NotADirectory,
    /// A path named a directory.
    IsADirectory,
    /// A directory was not empty.
    DirectoryNotEmpty,
    /// The file system was read-only.
    ReadOnlyFilesystem,
    /// A handle on a network file was stale.
    StaleNetworkFileHandle,
    /// Nothing could be written.
    WriteZero,
    /// The storage was full.
    StorageFull,
    /// The file had no positions.
    NotSeekable,
    /// The file was too large.
    FileTooLarge,
    /// A resource was busy.
    ResourceBusy,
    /// A program was running.
    ExecutableFileBusy,
    /// The operation would never have ended.
    Deadlock,
    /// There were too many links.
    TooManyLinks,
    /// There were too many arguments.
    ArgumentListTooLong,
    /// Any other failure.
    Other,
}

/// A network or stream failure.
#[derive(Debug, PartialEq, Eq)]
pub struct IoError {
    /// Kind of the failure.
    pub kind: IoErrorKind,
    /// The failure in words.
    pub message: String,
}

/// A network or stream failure as a value.
pub struct IoErrorView {
    pub kind: IoErrorKind,
    pub message: Seq<char>,
}

impl View for IoError {
    type V = IoErrorView;

    open spec fn view(&self) -> IoErrorView {
        IoErrorView { kind: self.kind, message: self.message@ }
    }
}

/// Errors returned by the AUKS client.
#[derive(Debug, PartialEq, Eq)]
pub enum Error {
    /// A Kerberos operation failed.
    Krb5(krb5::Error),
    /// Network or stream I/O failed.
    Io(IoError),
    /// AUKS wire data was malformed.
    Proto(ProtoError),
    /// A credential wire record was malformed.
    Cred(CredError),
    /// The daemon returned an error status.
    Daemon(i32),
    /// No readable Kerberos credential cache was available.
    NoCcache(String),
    /// The daemon returned an unexpected reply.
    UnexpectedReply(MessageType),
}

/// An error of the client as a value.
pub enum ErrorView {
    Krb5(krb5::ErrorView),
    Io(IoErrorView),
    Proto(ProtoError),
    Cred(CredError),
    Daemon(i32),
    NoCcache(Seq<char>),
    UnexpectedReply(MessageType),
}

impl View for Error {
    type V = ErrorView;

    open spec fn view(&self) -> ErrorView {
        match self {
            Error::Krb5(error) => ErrorView::Krb5(error@),
            Error::Io(error) => ErrorView::Io(error@),
            Error::Proto(error) => ErrorView::Proto(*error),
            Error::Cred(error) => ErrorView::Cred(*error),
            Error::Daemon(status) => ErrorView::Daemon(*status),
            Error::NoCcache(text) => ErrorView::NoCcache(text@),
            Error::UnexpectedReply(ty) => ErrorView::UnexpectedReply(*ty),
        }
    }
}

/// A configured AUKS daemon client.
#[derive(Debug)]
pub struct Client {
    config: ClientConfig,
    ccache: Option<String>,
}

/// A client as a value.
pub struct ClientView {
    pub config: ClientConfigView,
    pub ccache: Option<Seq<char>>,
}

impl View for Client {
    type V = ClientView;

    closed spec fn view(&self) -> ClientView {
        ClientView { config: self.config@, ccache: config::optional_text(self.ccache) }
    }
}

impl Clone for Client {
    fn clone(&self) -> (copy: Self)
        ensures
            copy@ == self@,
    {
        Client { config: self.config.clone(), ccache: copy_text(&self.ccache) }
    }
}

impl ClientView {
    /// The client, with a credential cache selected.
    pub open spec fn with_ccache(self, name: Seq<char>) -> ClientView {
        ClientView { ccache: Some(name), ..self }
    }

    /// How a request is tried at a server.
    pub open spec fn plan(self, server: ServerView, request: MessageView) -> PlanView {
        PlanView {
            server,
            ccache: self.ccache,
            nat: self.config.nat,
            timeout: self.config.timeout,
            request: request.encoding(),
        }
    }

    /// How a request is tried: at the primary server, and at the secondary one
    /// where there is one.
    pub open spec fn plans(self, request: MessageView) -> Seq<PlanView> {
        match self.config.secondary {
            Some(secondary) => seq![
                self.plan(self.config.primary, request),
                self.plan(secondary, request),
            ],
            None => seq![self.plan(self.config.primary, request)],
        }
    }

    /// The number of rounds: at least one.
    pub open spec fn rounds(self) -> int {
        if self.config.retries == 0 {
            1
        } else {
            self.config.retries as int
        }
    }

    /// The exchange that has a request answered.
    pub open spec fn exchange(self, request: MessageView) -> ExchangeView {
        ExchangeView::start(self.plans(request), self.rounds(), self.config.delay)
    }

    /// The name of the cache whose credential is added, if not the default one.
    pub open spec fn added_cache(self, ccache: Option<Seq<char>>) -> Option<Seq<char>> {
        match ccache {
            Some(name) => Some(name),
            None => self.ccache,
        }
    }

    /// The client that adds a credential: with the cache that was named for it.
    pub open spec fn requester(self, ccache: Option<Seq<char>>) -> ClientView {
        match ccache {
            Some(name) => self.with_ccache(name),
            None => self,
        }
    }
}

/// The status that an error reply carries, or -1 where it carries none.
pub open spec fn daemon_status(reply: MessageView) -> i32 {
    if reply.body.len() < 4 {
        -1i32
    } else {
        proto::int_at(reply.body, 0)
    }
}

/// What a reply other than the expected one means.
pub open spec fn refusal(reply: MessageView) -> ErrorView {
    if reply.ty == MessageType::ErrorReply {
        ErrorView::Daemon(daemon_status(reply))
    } else {
        ErrorView::UnexpectedReply(reply.ty)
    }
}

/// What a reply means where one without contents is expected.
pub open spec fn empty_reply(
    reply: Result<MessageView, ErrorView>,
    expected: MessageType,
) -> Result<(), ErrorView> {
    match reply {
        Err(error) => Err(error),
        Ok(reply) => if reply.ty == expected {
            Ok(())
        } else {
            Err(refusal(reply))
        },
    }
}

/// What a reply means where one with a credential is expected.
pub open spec fn cred_reply(reply: Result<MessageView, ErrorView>) -> Result<CredView, ErrorView> {
    match reply {
        Err(error) => Err(error),
        Ok(reply) => if reply.ty == MessageType::GetReply {
            match messages::get_reply(reply) {
                Ok(cred) => Ok(cred),
                Err(error) => Err(ErrorView::Cred(error)),
            }
        } else {
            Err(refusal(reply))
        },
    }
}

/// The outcome of an exchange as a value.
pub open spec fn outcome(reply: Result<Message, Error>) -> Result<MessageView, ErrorView> {
    match reply {
        Ok(reply) => Ok(reply@),
        Err(error) => Err(error@),
    }
}

/// Whether a result without contents is as expected.
pub open spec fn is_status(result: Result<(), Error>, expected: Result<(), ErrorView>) -> bool {
    match expected {
        Ok(_) => result is Ok,
        Err(error) => result is Err && result->Err_0@ == error,
    }
}

impl Client {
    /// Creates a client using the configured default credential cache.
    pub fn new(config: ClientConfig) -> (client: Self)
        ensures
            client@ == (ClientView { config: config@, ccache: None }),
    {
        Client { config, ccache: None }
    }

    /// Selects a credential cache by full name.
    pub fn with_ccache(self, name: String) -> (client: Self)
        ensures
            client@ == self@.with_ccache(name@),
    {
        Client { config: self.config, ccache: Some(name) }
    }

    fn plan(&self, server: &Server, request: &Message) -> (plan: Plan)
        ensures
            plan@ == self@.plan(server@, request@),
    {
        Plan {
            server: server.clone(),
            ccache: copy_text(&self.ccache),
            nat: self.config.nat,
            timeout: self.config.timeout,
            request: request.encode(),
        }
    }

    /// Begins one attempt to have a request answered by a server.
    pub fn try_request(&self, server: &Server, request: &Message) -> (attempt: AttemptStep)
        ensures
            attempt@ == self@.plan(server@, request@).start(),
    {
        Attempt::start(self.plan(server, request))
    }

    /// Begins to have a request answered.
    pub fn request(&self, request: &Message) -> (exchange: Exchange)
        ensures
            exchange@ == self@.exchange(request@),
    {
        let mut plans: Vec<Plan> = Vec::new();
        plans.push(self.plan(&self.config.primary, request));
        if let Some(secondary) = &self.config.secondary {
            plans.push(self.plan(secondary, request));
        }
        let rounds: u32 = if self.config.retries == 0 {
            1
        } else {
            self.config.retries
        };
        assert(exchange::plan_views(plans@) =~= self@.plans(request@));
        Exchange::start(plans, rounds, self.config.delay)
    }

    /// Begins to add the credential represented by a ccache to the daemon.
    pub fn add_cred(&self, ccache: Option<&str>) -> (adding: AddCred)
        ensures
            adding@ == (AddCredView {
                client: self@,
                ccache: match ccache {
                    Some(name) => Some(name@),
                    None => None,
                },
                stage: AddStage::OpenContext,
            }),
    {
        AddCred {
            client: self.clone(),
            ccache: match ccache {
                Some(name) => Some(name.to_owned()),
                None => None,
            },
            stage: AddStage::OpenContext,
        }
    }

    /// Ends the addition of a credential with what the daemon replied.
    pub fn cred_added(reply: Result<Message, Error>) -> (added: Result<(), Error>)
        ensures
            is_status(added, empty_reply(outcome(reply), MessageType::AddReply)),
    {
        Self::expect_empty_reply(reply, MessageType::AddReply)
    }

    /// Begins to retrieve a credential by Unix user ID.
    pub fn get_cred(&self, uid: u32) -> (exchange: Exchange)
        ensures
            exchange@ == self@.exchange(messages::uid_message(MessageType::GetRequest, uid)),
    {
        self.request(&messages::get_request(uid))
    }

    /// Ends the retrieval of a credential with what the daemon replied.
    pub fn cred_got(reply: Result<Message, Error>) -> (cred: Result<Cred, Error>)
        ensures
            match cred_reply(outcome(reply)) {
                Ok(expected) => cred is Ok && cred->Ok_0@ == expected,
                Err(error) => cred is Err && cred->Err_0@ == error,
            },
    {
        match reply {
            Err(error) => Err(error),
            Ok(reply) => match reply.ty {
                MessageType::GetReply => match messages::decode_get_reply(&reply) {
                    Ok(cred) => Ok(cred),
                    Err(error) => Err(Error::Cred(error)),
                },
                MessageType::ErrorReply => Err(Self::daemon_error(&reply)),
                ty => Err(Error::UnexpectedReply(ty)),
            },
        }
    }

    /// Begins to remove a credential by Unix user ID.
    pub fn remove_cred(&self, uid: u32) -> (exchange: Exchange)
        ensures
            exchange@ == self@.exchange(messages::uid_message(MessageType::RemoveRequest, uid)),
    {
        self.request(&messages::remove_request(uid))
    }

    /// Ends the removal of a credential with what the daemon replied.
    pub fn cred_removed(reply: Result<Message, Error>) -> (removed: Result<(), Error>)
        ensures
            is_status(removed, empty_reply(outcome(reply), MessageType::RemoveReply)),
    {
        Self::expect_empty_reply(reply, MessageType::RemoveReply)
    }

    /// Begins to check daemon reachability and protocol compatibility.
    pub fn ping(&self) -> (exchange: Exchange)
        ensures
            exchange@ == self@.exchange(
                MessageView { ty: MessageType::PingRequest, body: Seq::<u8>::empty() },
            ),
    {
        self.request(&messages::ping())
    }

    /// Ends the check with what the daemon replied.
    pub fn pinged(reply: Result<Message, Error>) -> (reached: Result<(), Error>)
        ensures
            is_status(reached, empty_reply(outcome(reply), MessageType::PingReply)),
    {
        Self::expect_empty_reply(reply, MessageType::PingReply)
    }

    fn expect_empty_reply(reply: Result<Message, Error>, expected: MessageType) -> (result: Result<
        (),
        Error,
    >)
        ensures
            is_status(result, empty_reply(outcome(reply), expected)),
    {
        match reply {
            Err(error) => Err(error),
            Ok(reply) => if reply.ty == expected {
                Ok(())
            } else if reply.ty == MessageType::ErrorReply {
                Err(Self::daemon_error(&reply))
            } else {
                Err(Error::UnexpectedReply(reply.ty))
            },
        }
    }

    fn daemon_error(reply: &Message) -> (error: Error)
        ensures
            error@ == ErrorView::Daemon(daemon_status(reply@)),
    {
        let mut reader = reply.reader();
        match reader.unpack_int() {
            Ok(status) => Error::Daemon(status),
            Err(_) => Error::Daemon(-1),
        }
    }
}

/// How far the addition of a credential has come.
#[derive(Debug, Clone, Copy, PartialEq, Eq, Structural)]
pub enum AddStage {
    /// Initializing a Kerberos context.
    OpenContext,
    /// Opening the credential cache.
    OpenCache,
    /// Serializing the credential.
    ReadBlob,
}

/// The addition of a credential, up to the request that carries it.
#[derive(Debug)]
pub struct AddCred {
    client: Client,
    ccache: Option<String>,
    stage: AddStage,
}

/// The addition of a credential as a value.
pub struct AddCredView {
    pub client: ClientView,
    pub ccache: Option<Seq<char>>,
    pub stage: AddStage,
}

impl View for AddCred {
    type V = AddCredView;

    closed spec fn view(&self) -> AddCredView {
        AddCredView {
            client: self.client@,
            ccache: config::optional_text(self.ccache),
            stage: self.stage,
        }
    }
}

/// A call that the addition of a credential needs.
#[derive(Debug, PartialEq, Eq)]
pub enum AddCall {
    /// Initialize a Kerberos context.
    OpenContext,
    /// Open a credential cache by name, or the default one.
    OpenCache(Option<String>),
    /// Serialize the credentials of the cache.
    ReadBlob,
}

/// A call as a value.
pub enum AddCallView {
    OpenContext,
    OpenCache(Option<Seq<char>>),
    ReadBlob,
}

impl View for AddCall {
    type V = AddCallView;

    open spec fn view(&self) -> AddCallView {
        match self {
            AddCall::OpenContext => AddCallView::OpenContext,
            AddCall::OpenCache(name) => AddCallView::OpenCache(config::optional_text(*name)),
            AddCall::ReadBlob => AddCallView::ReadBlob,
        }
    }
}

/// What came of a call.
#[derive(Debug, PartialEq, Eq)]
pub enum AddEvent {
    /// The call failed.
    Failed(krb5::Error),
    /// The call succeeded and returned nothing.
    Done,
    /// The call returned a blob.
    Blob(Vec<u8>),
}

/// What came of a call, as a value.
pub enum AddEventView {
    Failed(krb5::ErrorView),
    Done,
    Blob(Seq<u8>),
}

impl View for AddEvent {
    type V = AddEventView;

    open spec fn view(&self) -> AddEventView {
        match self {
            AddEvent::Failed(error) => AddEventView::Failed(error@),
            AddEvent::Done => AddEventView::Done,
            AddEvent::Blob(blob) => AddEventView::Blob(blob@),
        }
    }
}

/// Whether an event can come of a call.
pub open spec fn can_answer(call: AddCallView, event: AddEventView) -> bool {
    event is Failed || (call is ReadBlob <==> event is Blob)
}

/// Whether an event can come of a call.
pub fn answers(call: &AddCall, event: &AddEvent) -> (fits: bool)
    ensures
        fits == can_answer(call@, event@),
{
    match event {
        AddEvent::Failed(_) => true,
        AddEvent::Done => !matches!(call, AddCall::ReadBlob),
        AddEvent::Blob(_) => matches!(call, AddCall::ReadBlob),
    }
}

/// The request that adds a blob.
pub open spec fn add_message(blob: Seq<u8>) -> MessageView {
    MessageView { ty: MessageType::AddRequest, body: proto::data_field(blob) }
}

impl Machine for AddCredView {
    type Call = AddCallView;

    type Event = AddEventView;

    type Value = ExchangeView;

    type Failure = ErrorView;

    open spec fn call(self) -> AddCallView {
        match self.stage {
            AddStage::OpenContext => AddCallView::OpenContext,
            AddStage::OpenCache => AddCallView::OpenCache(self.client.added_cache(self.ccache)),
            AddStage::ReadBlob => AddCallView::ReadBlob,
        }
    }

    open spec fn next(self, event: AddEventView) -> StepView<
        AddCredView,
        ExchangeView,
        ErrorView,
    > {
        match event {
            AddEventView::Failed(error) => StepView::Finished(
                Err(
                    if self.stage == AddStage::OpenContext {
                        ErrorView::Krb5(error)
                    } else {
                        ErrorView::NoCcache(error.text())
                    },
                ),
            ),
            AddEventView::Done => StepView::Next(
                AddCredView {
                    stage: if self.stage == AddStage::OpenContext {
                        AddStage::OpenCache
                    } else {
                        AddStage::ReadBlob
                    },
                    ..self
                },
            ),
            AddEventView::Blob(blob) => StepView::Finished(
                Ok(self.client.requester(self.ccache).exchange(add_message(blob))),
            ),
        }
    }
}

impl AddCred {
    /// The call that is due.
    pub fn call(&self) -> (call: AddCall)
        ensures
            call@ == self@.call(),
    {
        match self.stage {
            AddStage::OpenContext => AddCall::OpenContext,
            AddStage::OpenCache => AddCall::OpenCache(
                match &self.ccache {
                    Some(name) => Some(name.clone()),
                    None => copy_text(&self.client.ccache),
                },
            ),
            AddStage::ReadBlob => AddCall::ReadBlob,
        }
    }

    /// Goes on with what came of the call. At the end stands the exchange that
    /// adds the credential.
    pub fn step(self, event: AddEvent) -> (step: Step<AddCred, Exchange, Error>)
        requires
            can_answer(self@.call(), event@),
        ensures
            step@ == self@.next(event@),
    {
        let AddCred { client, ccache, stage } = self;
        match event {
            AddEvent::Failed(error) => match stage {
                AddStage::OpenContext => Step::Finished(Err(Error::Krb5(error))),
                _ => Step::Finished(Err(Error::NoCcache(error.text()))),
            },
            AddEvent::Done => match stage {
                AddStage::OpenContext => Step::Next(
                    AddCred { client, ccache, stage: AddStage::OpenCache },
                ),
                _ => Step::Next(AddCred { client, ccache, stage: AddStage::ReadBlob }),
            },
            AddEvent::Blob(blob) => {
                let requester = match ccache {
                    Some(name) => client.with_ccache(name),
                    None => client,
                };
                Step::Finished(Ok(requester.request(&messages::add_request(blob.as_slice()))))
            },
        }
    }
}

/// A refused request is answered with the status that the daemon gave, whatever
/// was asked.
pub proof fn law_refusal_carries_status(status: i32, rest: Seq<u8>)
    ensures
        ({
            let reply = Ok::<_, ErrorView>(
                MessageView {
                    ty: MessageType::ErrorReply,
                    body: proto::int_bytes(status) + rest,
                },
            );
            let refused = ErrorView::Daemon(status);
            &&& cred_reply(reply) == Err::<CredView, _>(refused)
            &&& empty_reply(reply, MessageType::AddReply) == Err::<(), _>(refused)
            &&& empty_reply(reply, MessageType::RemoveReply) == Err::<(), _>(refused)
            &&& empty_reply(reply, MessageType::PingReply) == Err::<(), _>(refused)
        }),
{
    let none = Seq::<u8>::empty();
    proto::lemma_int_round_trip(status, none, rest);
    assert(none + proto::int_bytes(status) + rest =~= proto::int_bytes(status) + rest);
}

/// A credential that the daemon sends in reply to a request for it is the
/// credential that the client returns, whatever follows it in the reply.
pub proof fn law_got_cred_is_the_sent_one(cred: CredView, rest: Seq<u8>)
    requires
        cred.pack_error() is None,
    ensures
        cred_reply(
            Ok(MessageView { ty: MessageType::GetReply, body: cred.packed() + rest }),
        ) == Ok::<_, ErrorView>(cred),
{
    messages::law_get_reply_round_trip(cred, rest);
}

/// Each operation succeeds on replies of its own type only.
pub proof fn law_only_expected_reply_succeeds(reply: MessageView)
    ensures
        cred_reply(Ok(reply)) is Ok ==> reply.ty == MessageType::GetReply,
        empty_reply(Ok(reply), MessageType::AddReply) is Ok <==> reply.ty == MessageType::AddReply,
        empty_reply(Ok(reply), MessageType::RemoveReply) is Ok <==> reply.ty
            == MessageType::RemoveReply,
        empty_reply(Ok(reply), MessageType::PingReply) is Ok <==> reply.ty
            == MessageType::PingReply,
{
}

/// A credential is added from the cache that was named, else from that of the
/// client, else from the default one; and the request is authenticated with
/// the same cache.
pub proof fn law_add_cred_calls(client: ClientView, ccache: Option<Seq<char>>, blob: Seq<u8>)
    ensures
        machine::run(
            AddCredView { client, ccache, stage: AddStage::OpenContext },
            seq![AddEventView::Done, AddEventView::Done, AddEventView::Blob(blob)],
        ) == (
            seq![
                AddCallView::OpenContext,
                AddCallView::OpenCache(client.added_cache(ccache)),
                AddCallView::ReadBlob,
            ],
            StepView::<AddCredView, ExchangeView, ErrorView>::Finished(
                Ok(client.requester(ccache).exchange(add_message(blob))),
            ),
        ),
        client.requester(ccache).ccache == client.added_cache(ccache),
{
    reveal_with_fuel(machine::run, 4);
}

/// A request goes to the primary server first, and in full: what is sealed
/// decodes to the request.
pub proof fn law_request_reaches_primary_first(client: ClientView, request: MessageView)
    requires
        request.body.len() <= proto::MAX_DATA_LENGTH,
    ensures
        client.exchange(request).wf(),
        client.exchange(request).plans[0].server == client.config.primary,
        forall|i: int|
            0 <= i < client.exchange(request).plans.len() ==> proto::decoded_message(
                (#[trigger] client.exchange(request).plans[i]).request,
            ) == Ok::<_, ProtoError>(request),
{
    proto::law_decode_undoes_encode(request);
}

/// A daemon that seals a reply with a credential in it has the client return
/// that very credential, whatever becomes of the notice that the session ends.
pub proof fn law_sealed_cred_is_returned(
    session: AttemptView,
    reply: MessageView,
    cred: CredView,
    sealed: AttemptEventView,
    written: AttemptEventView,
)
    requires
        session.stage is Unseal,
        reply.body.len() <= proto::MAX_DATA_LENGTH,
        messages::get_reply(reply) == Ok::<_, CredError>(cred),
        attempt::can_answer(
            AttemptCallView::Seal(attempt::close_message().encoding()),
            sealed,
        ),
        sealed matches AttemptEventView::Data(data) ==> attempt::can_answer(
            AttemptCallView::Write(data),
            written,
        ),
    ensures
        machine::run(
            session,
            seq![AttemptEventView::Data(reply.encoding()), sealed, written],
        ).1 == StepView::<AttemptView, MessageView, AttemptErrorView>::Finished(Ok(reply)),
        cred_reply(Ok(reply)) == Ok::<_, ErrorView>(cred),
{
    attempt::law_reply_is_the_sealed_message(session, reply, sealed, written);
}

/// Every plan of a client's exchange follows its configuration: NAT traversal,
/// the time limit and the credential cache are those of the client, the primary
/// server comes first and the secondary one, if there is one, second. There are
/// as many rounds as retries, at least one, with the configured delay between
/// them, and the first call is the attempt at the primary server.
pub proof fn law_plans_follow_the_configuration(client: ClientView, request: MessageView)
    ensures
        ({
            let exchange = client.exchange(request);
            &&& forall|i: int|
                0 <= i < exchange.plans.len() ==> {
                    &&& (#[trigger] exchange.plans[i]).nat == client.config.nat
                    &&& exchange.plans[i].timeout == client.config.timeout
                    &&& exchange.plans[i].ccache == client.ccache
                    &&& exchange.plans[i].request.skip(4) == request.body
                    &&& exchange.plans[i].request.len() == request.body.len() + 4
                }
            &&& exchange.plans.len() == (if client.config.secondary is Some {
                2nat
            } else {
                1nat
            })
            &&& exchange.plans[0].server == client.config.primary
            &&& client.config.secondary matches Some(server) ==> exchange.plans[1].server == server
            &&& exchange.rounds >= 1
            &&& client.config.retries >= 1 ==> exchange.rounds == client.config.retries
            &&& client.config.retries == 0 ==> exchange.rounds == 1
            &&& exchange.delay == client.config.delay
            &&& exchange.call() == exchange::ExchangeCallView::Try(exchange.plans[0])
        }),
{
    proto::law_message_layout(request);
}

/// An attempt at one server follows the configuration of the client too, and
/// carries the request as it is encoded.
pub proof fn law_plan_of_one_server(client: ClientView, server: ServerView, request: MessageView)
    ensures
        client.plan(server, request).server == server,
        client.plan(server, request).nat == client.config.nat,
        client.plan(server, request).timeout == client.config.timeout,
        client.plan(server, request).ccache == client.ccache,
        client.plan(server, request).request == request.encoding(),
{
}

/// Behind a NAT every attempt of a client hides both ends between authentication
/// and the sealing of the request; elsewhere no attempt does. Either way the
/// client's own cache, time limit and request are used.
pub proof fn law_requests_cross_nat(
    client: ClientView,
    request: MessageView,
    i: int,
    port: u16,
    count: int,
    local: krb5::Ipv4,
    remote: krb5::Ipv4,
    sealed: Seq<u8>,
)
    requires
        0 <= i < client.exchange(request).plans.len(),
        count > 0,
    ensures
        ({
            let plan = client.exchange(request).plans[i];
            let session = AttemptView { plan, stage: attempt::StageView::Resolve { port } };
            let events = attempt::setup_events(count, local, remote);
            let calls = attempt::calls_to_authentication(plan, port, local, remote);
            let seal = AttemptCallView::Seal(request.encoding());
            let hide = AttemptCallView::SetAddresses {
                local: attempt::hidden_address(),
                remote: attempt::hidden_address(),
            };
            let data = AttemptEventView::Data(sealed);
            &&& client.config.nat ==> machine::run(
                session,
                events + seq![AttemptEventView::Done, data],
            ).0 == calls + seq![hide, seal]
            &&& !client.config.nat ==> machine::run(session, events + seq![data]).0 == calls + seq![
                seal,
            ]
            &&& calls[1] == AttemptCallView::Connect { index: 0, timeout: client.config.timeout }
            &&& calls[3] == AttemptCallView::OpenCache(client.ccache)
        }),
{
    let plan = client.exchange(request).plans[i];
    attempt::law_request_is_sealed_in_a_session(plan, port, count, local, remote, sealed);
}

/// Selecting a credential cache changes nothing else of a client.
pub proof fn law_selected_cache(client: ClientView, name: Seq<char>)
    ensures
        client.with_ccache(name).ccache == Some(name),
        client.with_ccache(name).config == client.config,
{
}

/// What is asked of the daemon for a user is a request of type 3 or 4 that
/// carries the user ID in four bytes, most significant first, and nothing else.
/// A check of the daemon is a request of type 0 that carries nothing.
pub proof fn law_requests_on_the_wire(client: ClientView, uid: u32, i: int)
    requires
        i == 0 || (i == 1 && client.config.secondary is Some),
    ensures
        ({
            let got = client.exchange(messages::uid_message(MessageType::GetRequest, uid)).plans[i];
            &&& got.request.len() == 8
            &&& got.request.take(4) == seq![0u8, 0u8, 0u8, 3u8]
            &&& proto::big_endian(got.request[4], got.request[5], got.request[6], got.request[7])
                == uid
        }),
        ({
            let gone = client.exchange(
                messages::uid_message(MessageType::RemoveRequest, uid),
            ).plans[i];
            &&& gone.request.len() == 8
            &&& gone.request.take(4) == seq![0u8, 0u8, 0u8, 4u8]
            &&& proto::big_endian(
                gone.request[4],
                gone.request[5],
                gone.request[6],
                gone.request[7],
            ) == uid
        }),
        client.exchange(
            MessageView { ty: MessageType::PingRequest, body: Seq::<u8>::empty() },
        ).plans[i].request == seq![0u8, 0u8, 0u8, 0u8],
{
    let get = messages::uid_message(MessageType::GetRequest, uid);
    let remove = messages::uid_message(MessageType::RemoveRequest, uid);
    let ping = MessageView { ty: MessageType::PingRequest, body: Seq::<u8>::empty() };
    proto::law_message_layout(get);
    proto::law_message_layout(remove);
    proto::law_message_layout(ping);
    proto::law_integers_are_big_endian(0, uid);
    assert(get.encoding().take(4) =~= seq![0u8, 0u8, 0u8, 3u8]);
    assert(remove.encoding().take(4) =~= seq![0u8, 0u8, 0u8, 4u8]);
    assert(ping.encoding() =~= seq![0u8, 0u8, 0u8, 0u8]);
    let tail = get.encoding().skip(4);
    assert(tail[0] == get.encoding()[4] && tail[1] == get.encoding()[5]);
    assert(tail[2] == get.encoding()[6] && tail[3] == get.encoding()[7]);
    let tail = remove.encoding().skip(4);
    assert(tail[0] == remove.encoding()[4] && tail[1] == remove.encoding()[5]);
    assert(tail[2] == remove.encoding()[6] && tail[3] == remove.encoding()[7]);
}

/// The credential that is added is sent whole. The addition opens the cache
/// that was named for it, else that of the client, else the default one, and
/// ends with an exchange each of whose requests is of type 2 and carries the
/// length of the blob in four bytes, most significant first, and exactly the
/// blob; the session is authenticated with the same cache, and follows the
/// client's configuration otherwise.
pub proof fn law_added_blob_is_sent_whole(
    client: ClientView,
    ccache: Option<Seq<char>>,
    blob: Seq<u8>,
)
    requires
        blob.len() < 4294967296,
    ensures
        ({
            let name = if ccache is Some {
                ccache
            } else {
                client.ccache
            };
            let run = machine::run(
                AddCredView { client, ccache, stage: AddStage::OpenContext },
                seq![AddEventView::Done, AddEventView::Done, AddEventView::Blob(blob)],
            );
            &&& run.0 == seq![
                AddCallView::OpenContext,
                AddCallView::OpenCache(name),
                AddCallView::ReadBlob,
            ]
            &&& run.1 matches StepView::Finished(Ok(exchange)) && {
                &&& exchange.plans.len() >= 1
                &&& exchange.plans[0].server == client.config.primary
                &&& client.config.secondary matches Some(server) ==> exchange.plans.len() == 2
                    && exchange.plans[1].server == server
                &&& exchange.delay == client.config.delay
                &&& client.config.retries > 0 ==> exchange.rounds == client.config.retries
                &&& forall|i: int|
                    0 <= i < exchange.plans.len() ==> {
                        let plan = #[trigger] exchange.plans[i];
                        &&& plan.ccache == name
                        &&& plan.nat == client.config.nat
                        &&& plan.timeout == client.config.timeout
                        &&& plan.request.len() == blob.len() + 8
                        &&& plan.request.take(4) == seq![0u8, 0u8, 0u8, 2u8]
                        &&& proto::big_endian(
                            plan.request[4],
                            plan.request[5],
                            plan.request[6],
                            plan.request[7],
                        ) == blob.len()
                        &&& plan.request.skip(8) == blob
                        &&& blob.len() + 4 <= proto::MAX_DATA_LENGTH ==> (proto::decoded_message(
                            plan.request,
                        ) matches Ok(message) && message.ty == MessageType::AddRequest
                            && message.body.skip(4) == blob)
                    }
            }
        }),
{
    let message = add_message(blob);
    let bytes = message.encoding();
    law_add_cred_calls(client, ccache, blob);
    proto::law_message_layout(message);
    proto::law_data_field_layout(blob);
    assert(bytes.take(4) =~= seq![0u8, 0u8, 0u8, 2u8]);
    let field = bytes.skip(4);
    assert(field[0] == bytes[4] && field[1] == bytes[5]);
    assert(field[2] == bytes[6] && field[3] == bytes[7]);
    assert(bytes.skip(8) =~= field.skip(4));
    if blob.len() + 4 <= proto::MAX_DATA_LENGTH {
        proto::law_decode_undoes_encode(message);
    }
}

/// A context that cannot be initialized is a Kerberos failure. A cache that
/// cannot be opened or serialized is reported in the words of the failure: the
/// operation, the code and the message.
pub proof fn law_failed_additions(adding: AddCredView, error: krb5::ErrorView)
    ensures
        adding.stage == AddStage::OpenContext ==> adding.next(AddEventView::Failed(error))
            == StepView::<AddCredView, ExchangeView, ErrorView>::Finished(
            Err(ErrorView::Krb5(error)),
        ),
        adding.stage != AddStage::OpenContext ==> adding.next(AddEventView::Failed(error))
            == StepView::<AddCredView, ExchangeView, ErrorView>::Finished(
            Err(
                ErrorView::NoCcache(
                    error.op + " failed ("@ + crate::text::int_text(error.code as int) + "): "@
                        + error.message,
                ),
            ),
        ),
{
}

/// A serialized cache answers the call for it, a success without contents
/// answers the others, and each of them can fail.
pub proof fn law_events_fit_calls(name: Option<Seq<char>>, blob: Seq<u8>, error: krb5::ErrorView)
    ensures
        can_answer(AddCallView::OpenContext, AddEventView::Done),
        can_answer(AddCallView::OpenCache(name), AddEventView::Done),
        can_answer(AddCallView::ReadBlob, AddEventView::Blob(blob)),
        can_answer(AddCallView::OpenContext, AddEventView::Failed(error)),
        can_answer(AddCallView::OpenCache(name), AddEventView::Failed(error)),
        can_answer(AddCallView::ReadBlob, AddEventView::Failed(error)),
        !can_answer(AddCallView::OpenContext, AddEventView::Blob(blob)),
        !can_answer(AddCallView::OpenCache(name), AddEventView::Blob(blob)),
        !can_answer(AddCallView::ReadBlob, AddEventView::Done),
{
}

/// What a reply means does not depend on what was asked but for the type that
/// is expected: an error reply gives the status at the front of its body, or -1
/// where that is cut off; any other type is reported as it is; a credential that
/// does not unpack gives the reason; and a failure of the exchange stays what it
/// is.
pub proof fn law_meaning_of_replies(
    reply: MessageView,
    expected: MessageType,
    error: ErrorView,
)
    requires
        expected != MessageType::ErrorReply,
    ensures
        cred_reply(Err(error)) == Err::<CredView, _>(error),
        empty_reply(Err(error), expected) == Err::<(), _>(error),
        reply.ty == MessageType::ErrorReply ==> {
            let status = if reply.body.len() < 4 {
                -1int
            } else {
                let number = proto::big_endian(
                    reply.body[0],
                    reply.body[1],
                    reply.body[2],
                    reply.body[3],
                );
                if number < 2147483648 {
                    number
                } else {
                    number - 4294967296
                }
            };
            &&& cred_reply(Ok(reply)) matches Err(ErrorView::Daemon(code)) && code == status
            &&& empty_reply(Ok(reply), expected) matches Err(ErrorView::Daemon(code)) && code
                == status
        },
        reply.ty == expected ==> empty_reply(Ok(reply), expected) is Ok,
        reply.ty != expected && reply.ty != MessageType::ErrorReply ==> empty_reply(
            Ok(reply),
            expected,
        ) == Err::<(), _>(ErrorView::UnexpectedReply(reply.ty)),
        reply.ty != MessageType::GetReply && reply.ty != MessageType::ErrorReply ==> cred_reply(
            Ok(reply),
        ) == Err::<CredView, _>(ErrorView::UnexpectedReply(reply.ty)),
        reply.ty == MessageType::GetReply ==> cred_reply(Ok(reply)) == match crate::cred::unpacked(
            reply.body,
        ).0 {
            Ok(cred) => Ok(cred),
            Err(reason) => Err(ErrorView::Cred(reason)),
        },
{
    if reply.body.len() >= 4 {
        proto::law_integers_are_read_big_endian(reply.body, 0);
    }
}

/// What an operation without contents returns is the success that is expected,
/// or the very failure that is; and the outcome of an exchange is told as it is.
pub proof fn law_results_are_told_apart(
    result: Result<(), Error>,
    error: ErrorView,
    reply: Result<Message, Error>,
)
    ensures
        is_status(result, Ok(())) <==> result is Ok,
        is_status(result, Err(error)) <==> (result matches Err(told) && told@ == error),
        reply matches Ok(message) ==> outcome(reply) == Ok::<_, ErrorView>(message@),
        reply matches Err(failure) ==> outcome(reply) == Err::<MessageView, _>(failure@),
{
}

} // verus!
