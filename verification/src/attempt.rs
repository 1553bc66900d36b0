//! One attempt to have a request answered by one server.
//!
//! The attempt is a state machine over the calls that it needs: to the
//! resolver, the network and the Kerberos library. Its caller performs the
//! call that is due and hands back what came of it.
use crate::client::{Error, ErrorView, IoError, IoErrorKind, IoErrorView};
use crate::config::{copy_text, Duration, Server, ServerView};
use crate::krb5::{self, Address, AddressView, Ipv4, AUTH_CONTEXT_DO_SEQUENCE};
use crate::machine::{self, Machine, Step, StepView};
use crate::messages;
use crate::proto::{self, Message, MessageType, MessageView};
use crate::text::{self, parse_u16};
use vstd::pervasive::unreached;
use vstd::prelude::*;
use vstd::slice::slice_to_vec;

verus! {

/// How an attempt fails.
#[derive(Debug, PartialEq, Eq)]
pub enum AttemptError {
    /// Another attempt may do better.
    Retry(Error),
    /// The request may have reached the daemon: no other attempt is made.
    Return(Error),
}

/// The failure of an attempt as a value.
pub enum AttemptErrorView {
    Retry(ErrorView),
    Return(ErrorView),
}

impl View for AttemptError {
    type V = AttemptErrorView;

    open spec fn view(&self) -> AttemptErrorView {
        match self {
            AttemptError::Retry(error) => AttemptErrorView::Retry(error@),
            AttemptError::Return(error) => AttemptErrorView::Return(error@),
        }
    }
}

/// A call that an attempt needs.
#[derive(Debug, PartialEq, Eq)]
pub enum AttemptCall {
    /// Resolve a host name and a port to addresses.
    Resolve {
        /// Host name or address.
        host: String,
        /// TCP port.
        port: u16,
    },
    /// Connect to one of the resolved addresses.
    Connect {
        /// Position of the address.
        index: usize,
        /// Longest time to wait.
        timeout: Duration,
    },
    /// Initialize a Kerberos context.
    OpenContext,
    /// Open a credential cache by name, or the default one.
    OpenCache(Option<String>),
    /// Read the principal of the cache.
    CachePrincipal,
    /// Parse the principal name of the server.
    ParseName(String),
    /// Read the local address of the connection.
    LocalAddress,
    /// Read the remote address of the connection.
    PeerAddress,
    /// Make an authentication context.
    NewAuth,
    /// Set the addresses of the authentication context.
    SetAddresses {
        /// Local address.
        local: Address,
        /// Remote address.
        remote: Address,
    },
    /// Set the flags of the authentication context.
    SetFlags(u32),
    /// Authenticate to the server over the connection.
    SendAuth {
        /// Application version to announce.
        version: &'static str,
        /// Options of the authentication.
        options: u32,
    },
    /// Seal a message.
    Seal(Vec<u8>),
    /// Write a sealed message to the connection.
    Write(Vec<u8>),
    /// Read a sealed message from the connection.
    Read,
    /// Open a sealed message.
    Unseal(Vec<u8>),
}

/// A call as a value.
pub enum AttemptCallView {
    Resolve { host: Seq<char>, port: u16 },
    Connect { index: int, timeout: Duration },
    OpenContext,
    OpenCache(Option<Seq<char>>),
    CachePrincipal,
    ParseName(Seq<char>),
    LocalAddress,
    PeerAddress,
    NewAuth,
    SetAddresses { local: AddressView, remote: AddressView },
    SetFlags(u32),
    SendAuth { version: Seq<char>, options: u32 },
    Seal(Seq<u8>),
    Write(Seq<u8>),
    Read,
    Unseal(Seq<u8>),
}

impl View for AttemptCall {
    type V = AttemptCallView;

    open spec fn view(&self) -> AttemptCallView {
        match self {
            AttemptCall::Resolve { host, port } => AttemptCallView::Resolve {
                host: host@,
                port: *port,
            },
            AttemptCall::Connect { index, timeout } => AttemptCallView::Connect {
                index: *index as int,
                timeout: *timeout,
            },
            AttemptCall::OpenContext => AttemptCallView::OpenContext,
            AttemptCall::OpenCache(name) => AttemptCallView::OpenCache(
                crate::config::optional_text(*name),
            ),
            AttemptCall::CachePrincipal => AttemptCallView::CachePrincipal,
            AttemptCall::ParseName(name) => AttemptCallView::ParseName(name@),
            AttemptCall::LocalAddress => AttemptCallView::LocalAddress,
            AttemptCall::PeerAddress => AttemptCallView::PeerAddress,
            AttemptCall::NewAuth => AttemptCallView::NewAuth,
            AttemptCall::SetAddresses { local, remote } => AttemptCallView::SetAddresses {
                local: local@,
                remote: remote@,
            },
            AttemptCall::SetFlags(flags) => AttemptCallView::SetFlags(*flags),
            AttemptCall::SendAuth { version, options } => AttemptCallView::SendAuth {
                version: version@,
                options: *options,
            },
            AttemptCall::Seal(data) => AttemptCallView::Seal(data@),
            AttemptCall::Write(data) => AttemptCallView::Write(data@),
            AttemptCall::Read => AttemptCallView::Read,
            AttemptCall::Unseal(data) => AttemptCallView::Unseal(data@),
        }
    }
}

/// One end of a connection.
#[derive(Debug, Clone, Copy, PartialEq, Eq, Structural)]
pub enum Endpoint {
    /// An IPv4 address.
    V4(Ipv4),
    /// Some IPv6 address.
    V6,
}

/// What came of a call.
#[derive(Debug, PartialEq, Eq)]
pub enum AttemptEvent {
    /// The resolver or the network failed.
    IoFailed(IoError),
    /// Kerberos failed.
    Krb5Failed(krb5::Error),
    /// The call succeeded and returned nothing that matters here.
    Done,
    /// The host resolved to a number of addresses.
    Resolved(usize),
    /// The call returned one end of the connection.
    Endpoint(Endpoint),
    /// The call returned data.
    Data(Vec<u8>),
}

/// What came of a call, as a value.
pub enum AttemptEventView {
    IoFailed(IoErrorView),
    Krb5Failed(krb5::ErrorView),
    Done,
    Resolved(int),
    Endpoint(Endpoint),
    Data(Seq<u8>),
}

impl View for AttemptEvent {
    type V = AttemptEventView;

    open spec fn view(&self) -> AttemptEventView {
        match self {
            AttemptEvent::IoFailed(error) => AttemptEventView::IoFailed(error@),
            AttemptEvent::Krb5Failed(error) => AttemptEventView::Krb5Failed(error@),
            AttemptEvent::Done => AttemptEventView::Done,
            AttemptEvent::Resolved(count) => AttemptEventView::Resolved(*count as int),
            AttemptEvent::Endpoint(endpoint) => AttemptEventView::Endpoint(*endpoint),
            AttemptEvent::Data(data) => AttemptEventView::Data(data@),
        }
    }
}

/// Whether an event can come of a call.
pub open spec fn can_answer(call: AttemptCallView, event: AttemptEventView) -> bool {
    match call {
        AttemptCallView::Resolve { .. } => event is IoFailed || (event matches AttemptEventView::Resolved(
            count,
        ) && count >= 0),
        AttemptCallView::Connect { .. } => event is IoFailed || event is Done,
        AttemptCallView::LocalAddress | AttemptCallView::PeerAddress => event is IoFailed
            || event is Endpoint,
        AttemptCallView::Seal(_) | AttemptCallView::Read | AttemptCallView::Unseal(_) => event is Krb5Failed
            || event is Data,
        _ => event is Krb5Failed || event is Done,
    }
}

/// Whether an event can come of a call.
pub fn answers(call: &AttemptCall, event: &AttemptEvent) -> (fits: bool)
    ensures
        fits == can_answer(call@, event@),
{
    match call {
        AttemptCall::Resolve { .. } => matches!(
            event,
            AttemptEvent::IoFailed(_) | AttemptEvent::Resolved(_)
        ),
        AttemptCall::Connect { .. } => matches!(
            event,
            AttemptEvent::IoFailed(_) | AttemptEvent::Done
        ),
        AttemptCall::LocalAddress | AttemptCall::PeerAddress => matches!(
            event,
            AttemptEvent::IoFailed(_) | AttemptEvent::Endpoint(_)
        ),
        AttemptCall::Seal(_) | AttemptCall::Read | AttemptCall::Unseal(_) => matches!(
            event,
            AttemptEvent::Krb5Failed(_) | AttemptEvent::Data(_)
        ),
        _ => matches!(event, AttemptEvent::Krb5Failed(_) | AttemptEvent::Done),
    }
}

/// How far an attempt has come.
#[derive(Debug, PartialEq, Eq)]
pub enum Stage {
    /// Resolving the address of the server.
    Resolve {
        /// TCP port.
        port: u16,
    },
    /// Connecting to the resolved addresses in turn.
    Connect {
        /// Number of addresses.
        count: usize,
        /// Address that is tried.
        index: usize,
    },
    /// Initializing a Kerberos context.
    OpenContext,
    /// Opening the credential cache.
    OpenCache,
    /// Reading the principal of the cache.
    CachePrincipal,
    /// Parsing the principal name of the server.
    ParseName,
    /// Reading the local address.
    LocalAddress,
    /// Reading the remote address.
    PeerAddress {
        /// Local address.
        local: Ipv4,
    },
    /// Making an authentication context.
    NewAuth {
        /// Local address.
        local: Ipv4,
        /// Remote address.
        remote: Ipv4,
    },
    /// Setting the addresses of the authentication context.
    SetAddresses {
        /// Local address.
        local: Ipv4,
        /// Remote address.
        remote: Ipv4,
    },
    /// Setting the flags of the authentication context.
    SetFlags,
    /// Authenticating.
    SendAuth,
    /// Hiding the addresses from the session.
    SetDummyAddresses,
    /// Sealing the request.
    Seal,
    /// Writing the request.
    Write {
        /// Sealed request.
        data: Vec<u8>,
    },
    /// Reading the reply.
    Read,
    /// Opening the reply.
    Unseal {
        /// Sealed reply.
        data: Vec<u8>,
    },
    /// Sealing the notice that the session ends.
    SealClose {
        /// Reply of the daemon.
        reply: Message,
    },
    /// Writing that notice.
    WriteClose {
        /// Reply of the daemon.
        reply: Message,
        /// Sealed notice.
        data: Vec<u8>,
    },
}

/// How far an attempt has come, as a value.
pub enum StageView {
    Resolve { port: u16 },
    Connect { count: int, index: int },
    OpenContext,
    OpenCache,
    CachePrincipal,
    ParseName,
    LocalAddress,
    PeerAddress { local: Ipv4 },
    NewAuth { local: Ipv4, remote: Ipv4 },
    SetAddresses { local: Ipv4, remote: Ipv4 },
    SetFlags,
    SendAuth,
    SetDummyAddresses,
    Seal,
    Write { data: Seq<u8> },
    Read,
    Unseal { data: Seq<u8> },
    SealClose { reply: MessageView },
    WriteClose { reply: MessageView, data: Seq<u8> },
}

impl View for Stage {
    type V = StageView;

    open spec fn view(&self) -> StageView {
        match self {
            Stage::Resolve { port } => StageView::Resolve { port: *port },
            Stage::Connect { count, index } => StageView::Connect {
                count: *count as int,
                index: *index as int,
            },
            Stage::OpenContext => StageView::OpenContext,
            Stage::OpenCache => StageView::OpenCache,
            Stage::CachePrincipal => StageView::CachePrincipal,
            Stage::ParseName => StageView::ParseName,
            Stage::LocalAddress => StageView::LocalAddress,
            Stage::PeerAddress { local } => StageView::PeerAddress { local: *local },
            Stage::NewAuth { local, remote } => StageView::NewAuth {
                local: *local,
                remote: *remote,
            },
            Stage::SetAddresses { local, remote } => StageView::SetAddresses {
                local: *local,
                remote: *remote,
            },
            Stage::SetFlags => StageView::SetFlags,
            Stage::SendAuth => StageView::SendAuth,
            Stage::SetDummyAddresses => StageView::SetDummyAddresses,
            Stage::Seal => StageView::Seal,
            Stage::Write { data } => StageView::Write { data: data@ },
            Stage::Read => StageView::Read,
            Stage::Unseal { data } => StageView::Unseal { data: data@ },
            Stage::SealClose { reply } => StageView::SealClose { reply: reply@ },
            Stage::WriteClose { reply, data } => StageView::WriteClose {
                reply: reply@,
                data: data@,
            },
        }
    }
}

/// What stays the same during an attempt.
#[derive(Debug, PartialEq, Eq)]
pub struct Plan {
    /// Server to ask.
    pub server: Server,
    /// Credential cache to use, if not the default one.
    pub ccache: Option<String>,
    /// Whether the connection crosses a NAT.
    pub nat: bool,
    /// Longest time to wait for a connection.
    pub timeout: Duration,
    /// Encoded request.
    pub request: Vec<u8>,
}

impl Clone for Plan {
    fn clone(&self) -> (copy: Self)
        ensures
            copy@ == self@,
    {
        Plan {
            server: self.server.clone(),
            ccache: copy_text(&self.ccache),
            nat: self.nat,
            timeout: self.timeout,
            request: slice_to_vec(self.request.as_slice()),
        }
    }
}

/// What stays the same during an attempt, as a value.
pub struct PlanView {
    pub server: ServerView,
    pub ccache: Option<Seq<char>>,
    pub nat: bool,
    pub timeout: Duration,
    pub request: Seq<u8>,
}

impl View for Plan {
    type V = PlanView;

    open spec fn view(&self) -> PlanView {
        PlanView {
            server: self.server@,
            ccache: crate::config::optional_text(self.ccache),
            nat: self.nat,
            timeout: self.timeout,
            request: self.request@,
        }
    }
}

/// An attempt to have a request answered by one server.
#[derive(Debug, PartialEq, Eq)]
pub struct Attempt {
    plan: Plan,
    stage: Stage,
}

/// An attempt as a value.
pub struct AttemptView {
    pub plan: PlanView,
    pub stage: StageView,
}

impl View for Attempt {
    type V = AttemptView;

    closed spec fn view(&self) -> AttemptView {
        AttemptView { plan: self.plan@, stage: self.stage@ }
    }
}

/// Where an attempt stands after an event.
pub type AttemptStepView = StepView<AttemptView, MessageView, AttemptErrorView>;

/// A failure of the resolver or the network that the attempt itself finds.
pub open spec fn io_error(kind: IoErrorKind, message: Seq<char>) -> ErrorView {
    ErrorView::Io(IoErrorView { kind, message })
}

/// The attempt ends; another one may do better.
pub open spec fn retry(error: ErrorView) -> AttemptStepView {
    StepView::Finished(Err(AttemptErrorView::Retry(error)))
}

impl PlanView {
    /// The attempt goes on at a stage.
    pub open spec fn at(self, stage: StageView) -> AttemptStepView {
        StepView::Next(AttemptView { plan: self, stage })
    }

    /// The attempt begins: the port of the server must be a number.
    pub open spec fn start(self) -> AttemptStepView {
        match text::parsed_number(self.server.port, u16::MAX as nat) {
            Some(port) => self.at(StageView::Resolve { port: port as u16 }),
            None => retry(
                io_error(IoErrorKind::InvalidInput, "invalid TCP port "@ + self.server.port),
            ),
        }
    }
}

impl StageView {
    /// Whether the session with the daemon is not set up yet. Until then a
    /// failure leaves the request unsent.
    pub open spec fn before_session(self) -> bool {
        match self {
            StageView::SetDummyAddresses
            | StageView::Seal
            | StageView::Write { .. }
            | StageView::Read
            | StageView::Unseal { .. }
            | StageView::SealClose { .. }
            | StageView::WriteClose { .. } => false,
            _ => true,
        }
    }

    /// The failure of the call that is due.
    pub open spec fn failure(self, error: ErrorView) -> AttemptErrorView {
        if self.before_session() {
            AttemptErrorView::Retry(error)
        } else {
            AttemptErrorView::Return(error)
        }
    }
}

impl AttemptView {
    /// The attempt goes on at a stage.
    pub open spec fn at(self, stage: StageView) -> AttemptStepView {
        self.plan.at(stage)
    }

    /// Where an attempt goes when the call that was due succeeded.
    pub open spec fn advance(self, event: AttemptEventView) -> AttemptStepView {
        match self.stage {
            StageView::Resolve { .. } => if event->Resolved_0 == 0 {
                retry(io_error(IoErrorKind::AddrNotAvailable, "no resolved server address"@))
            } else {
                self.at(StageView::Connect { count: event->Resolved_0, index: 0 })
            },
            StageView::Connect { .. } => self.at(StageView::OpenContext),
            StageView::OpenContext => self.at(StageView::OpenCache),
            StageView::OpenCache => self.at(StageView::CachePrincipal),
            StageView::CachePrincipal => self.at(StageView::ParseName),
            StageView::ParseName => self.at(StageView::LocalAddress),
            StageView::LocalAddress => match event->Endpoint_0 {
                Endpoint::V4(local) => self.at(StageView::PeerAddress { local }),
                Endpoint::V6 => retry(
                    io_error(IoErrorKind::InvalidInput, "IPv6 local endpoint is unsupported"@),
                ),
            },
            StageView::PeerAddress { local } => match event->Endpoint_0 {
                Endpoint::V4(remote) => self.at(StageView::NewAuth { local, remote }),
                Endpoint::V6 => retry(
                    io_error(IoErrorKind::InvalidInput, "IPv6 remote endpoint is unsupported"@),
                ),
            },
            StageView::NewAuth { local, remote } => self.at(
                StageView::SetAddresses { local, remote },
            ),
            StageView::SetAddresses { .. } => self.at(StageView::SetFlags),
            StageView::SetFlags => self.at(StageView::SendAuth),
            StageView::SendAuth => if self.plan.nat {
                self.at(StageView::SetDummyAddresses)
            } else {
                self.at(StageView::Seal)
            },
            StageView::SetDummyAddresses => self.at(StageView::Seal),
            StageView::Seal => self.at(StageView::Write { data: event->Data_0 }),
            StageView::Write { .. } => self.at(StageView::Read),
            StageView::Read => self.at(StageView::Unseal { data: event->Data_0 }),
            StageView::Unseal { .. } => match proto::decoded_message(event->Data_0) {
                Ok(reply) => self.at(StageView::SealClose { reply }),
                Err(error) => StepView::Finished(
                    Err(AttemptErrorView::Return(ErrorView::Proto(error))),
                ),
            },
            StageView::SealClose { reply } => self.at(
                StageView::WriteClose { reply, data: event->Data_0 },
            ),
            StageView::WriteClose { reply, .. } => StepView::Finished(Ok(reply)),
        }
    }

    /// Where an attempt goes when the call that was due failed. A connection is
    /// tried at every address, and the notice that the session ends may get
    /// lost.
    pub open spec fn give_up(self, error: ErrorView) -> AttemptStepView {
        match self.stage {
            StageView::Connect { count, index } => if index + 1 < count {
                self.at(StageView::Connect { count, index: index + 1 })
            } else {
                retry(error)
            },
            StageView::SealClose { reply } => StepView::Finished(Ok(reply)),
            StageView::WriteClose { reply, .. } => StepView::Finished(Ok(reply)),
            _ => StepView::Finished(Err(self.stage.failure(error))),
        }
    }
}

/// Authentication: both sides prove who they are and agree on a subsession key,
/// under the version that AUKS announces.
pub open spec fn authentication() -> AttemptCallView {
    AttemptCallView::SendAuth {
        version: krb5::SENDAUTH_VERSION@,
        options: krb5::mutual_options(),
    }
}

/// The notice that a session ends.
pub open spec fn close_message() -> MessageView {
    MessageView { ty: MessageType::CloseRequest, body: Seq::empty() }
}

impl Machine for AttemptView {
    type Call = AttemptCallView;

    type Event = AttemptEventView;

    type Value = MessageView;

    type Failure = AttemptErrorView;

    open spec fn call(self) -> AttemptCallView {
        match self.stage {
            StageView::Resolve { port } => AttemptCallView::Resolve {
                host: self.plan.server.address,
                port,
            },
            StageView::Connect { index, .. } => AttemptCallView::Connect {
                index,
                timeout: self.plan.timeout,
            },
            StageView::OpenContext => AttemptCallView::OpenContext,
            StageView::OpenCache => AttemptCallView::OpenCache(self.plan.ccache),
            StageView::CachePrincipal => AttemptCallView::CachePrincipal,
            StageView::ParseName => AttemptCallView::ParseName(self.plan.server.principal),
            StageView::LocalAddress => AttemptCallView::LocalAddress,
            StageView::PeerAddress { .. } => AttemptCallView::PeerAddress,
            StageView::NewAuth { .. } => AttemptCallView::NewAuth,
            StageView::SetAddresses { local, remote } => AttemptCallView::SetAddresses {
                local: krb5::inet_record(local),
                remote: krb5::inet_record(remote),
            },
            StageView::SetFlags => AttemptCallView::SetFlags(AUTH_CONTEXT_DO_SEQUENCE),
            StageView::SendAuth => authentication(),
            StageView::SetDummyAddresses => AttemptCallView::SetAddresses {
                local: krb5::dummy_record(),
                remote: krb5::dummy_record(),
            },
            StageView::Seal => AttemptCallView::Seal(self.plan.request),
            StageView::Write { data } => AttemptCallView::Write(data),
            StageView::Read => AttemptCallView::Read,
            StageView::Unseal { data } => AttemptCallView::Unseal(data),
            StageView::SealClose { .. } => AttemptCallView::Seal(close_message().encoding()),
            StageView::WriteClose { data, .. } => AttemptCallView::Write(data),
        }
    }

    open spec fn next(self, event: AttemptEventView) -> AttemptStepView {
        match event {
            AttemptEventView::IoFailed(error) => self.give_up(ErrorView::Io(error)),
            AttemptEventView::Krb5Failed(error) => self.give_up(ErrorView::Krb5(error)),
            _ => self.advance(event),
        }
    }
}

/// What an attempt returns: the reply of the daemon, or why there is none.
pub type AttemptStep = Step<Attempt, Message, AttemptError>;

fn retry_io(kind: IoErrorKind, message: String) -> (step: AttemptStep)
    ensures
        step@ == retry(io_error(kind, message@)),
{
    Step::Finished(Err(AttemptError::Retry(Error::Io(IoError { kind, message }))))
}

impl Attempt {
    #[verifier::type_invariant]
    spec fn inv(self) -> bool {
        match self.stage {
            Stage::Connect { count, index } => index < count,
            _ => true,
        }
    }

    /// Begins an attempt.
    pub fn start(plan: Plan) -> (step: AttemptStep)
        ensures
            step@ == plan@.start(),
    {
        match parse_u16(plan.server.port.as_str()) {
            Some(port) => Step::Next(Attempt { plan, stage: Stage::Resolve { port } }),
            None => {
                let mut message = "invalid TCP port ".to_owned();
                message.append(plan.server.port.as_str());
                retry_io(IoErrorKind::InvalidInput, message)
            },
        }
    }

    /// The call that is due.
    pub fn call(&self) -> (call: AttemptCall)
        ensures
            call@ == self@.call(),
    {
        match &self.stage {
            Stage::Resolve { port } => AttemptCall::Resolve {
                host: self.plan.server.address.clone(),
                port: *port,
            },
            Stage::Connect { index, .. } => AttemptCall::Connect {
                index: *index,
                timeout: self.plan.timeout,
            },
            Stage::OpenContext => AttemptCall::OpenContext,
            Stage::OpenCache => AttemptCall::OpenCache(copy_text(&self.plan.ccache)),
            Stage::CachePrincipal => AttemptCall::CachePrincipal,
            Stage::ParseName => AttemptCall::ParseName(self.plan.server.principal.clone()),
            Stage::LocalAddress => AttemptCall::LocalAddress,
            Stage::PeerAddress { .. } => AttemptCall::PeerAddress,
            Stage::NewAuth { .. } => AttemptCall::NewAuth,
            Stage::SetAddresses { local, remote } => AttemptCall::SetAddresses {
                local: krb5::inet_address(*local),
                remote: krb5::inet_address(*remote),
            },
            Stage::SetFlags => AttemptCall::SetFlags(AUTH_CONTEXT_DO_SEQUENCE),
            Stage::SendAuth => AttemptCall::SendAuth {
                version: krb5::SENDAUTH_VERSION,
                options: krb5::sendauth_options(),
            },
            Stage::SetDummyAddresses => AttemptCall::SetAddresses {
                local: krb5::dummy_address(),
                remote: krb5::dummy_address(),
            },
            Stage::Seal => AttemptCall::Seal(slice_to_vec(self.plan.request.as_slice())),
            Stage::Write { data } => AttemptCall::Write(slice_to_vec(data.as_slice())),
            Stage::Read => AttemptCall::Read,
            Stage::Unseal { data } => AttemptCall::Unseal(slice_to_vec(data.as_slice())),
            Stage::SealClose { .. } => AttemptCall::Seal(messages::close().encode()),
            Stage::WriteClose { data, .. } => AttemptCall::Write(slice_to_vec(data.as_slice())),
        }
    }

    /// Goes on with what came of the call.
    pub fn step(self, event: AttemptEvent) -> (step: AttemptStep)
        requires
            can_answer(self@.call(), event@),
        ensures
            step@ == self@.next(event@),
    {
        match event {
            AttemptEvent::IoFailed(error) => self.give_up(Error::Io(error)),
            AttemptEvent::Krb5Failed(error) => self.give_up(Error::Krb5(error)),
            event => self.advance(event),
        }
    }

    fn give_up(self, error: Error) -> (step: AttemptStep)
        ensures
            step@ == self@.give_up(error@),
    {
        proof {
            use_type_invariant(&self);
        }
        let Attempt { plan, stage } = self;
        match stage {
            Stage::Connect { count, index } => if index + 1 < count {
                Step::Next(Attempt { plan, stage: Stage::Connect { count, index: index + 1 } })
            } else {
                Step::Finished(Err(AttemptError::Retry(error)))
            },
            Stage::SealClose { reply } => Step::Finished(Ok(reply)),
            Stage::WriteClose { reply, .. } => Step::Finished(Ok(reply)),
            Stage::SetDummyAddresses
            | Stage::Seal
            | Stage::Write { .. }
            | Stage::Read
            | Stage::Unseal { .. } => Step::Finished(Err(AttemptError::Return(error))),
            _ => Step::Finished(Err(AttemptError::Retry(error))),
        }
    }

    fn advance(self, event: AttemptEvent) -> (step: AttemptStep)
        requires
            can_answer(self@.call(), event@),
            !(event is IoFailed),
            !(event is Krb5Failed),
        ensures
            step@ == self@.advance(event@),
    {
        let Attempt { plan, stage } = self;
        let stage = match (stage, event) {
            (Stage::Resolve { .. }, AttemptEvent::Resolved(count)) => if count == 0 {
                return retry_io(
                    IoErrorKind::AddrNotAvailable,
                    "no resolved server address".to_owned(),
                );
            } else {
                Stage::Connect { count, index: 0 }
            },
            (Stage::Connect { .. }, _) => Stage::OpenContext,
            (Stage::OpenContext, _) => Stage::OpenCache,
            (Stage::OpenCache, _) => Stage::CachePrincipal,
            (Stage::CachePrincipal, _) => Stage::ParseName,
            (Stage::ParseName, _) => Stage::LocalAddress,
            (Stage::LocalAddress, AttemptEvent::Endpoint(Endpoint::V4(local))) => {
                Stage::PeerAddress { local }
            },
            (Stage::LocalAddress, AttemptEvent::Endpoint(Endpoint::V6)) => {
                return retry_io(
                    IoErrorKind::InvalidInput,
                    "IPv6 local endpoint is unsupported".to_owned(),
                );
            },
            (Stage::PeerAddress { local }, AttemptEvent::Endpoint(Endpoint::V4(remote))) => {
                Stage::NewAuth { local, remote }
            },
            (Stage::PeerAddress { .. }, AttemptEvent::Endpoint(Endpoint::V6)) => {
                return retry_io(
                    IoErrorKind::InvalidInput,
                    "IPv6 remote endpoint is unsupported".to_owned(),
                );
            },
            (Stage::NewAuth { local, remote }, _) => Stage::SetAddresses { local, remote },
            (Stage::SetAddresses { .. }, _) => Stage::SetFlags,
            (Stage::SetFlags, _) => Stage::SendAuth,
            (Stage::SendAuth, _) => if plan.nat {
                Stage::SetDummyAddresses
            } else {
                Stage::Seal
            },
            (Stage::SetDummyAddresses, _) => Stage::Seal,
            (Stage::Seal, AttemptEvent::Data(data)) => Stage::Write { data },
            (Stage::Write { .. }, _) => Stage::Read,
            (Stage::Read, AttemptEvent::Data(data)) => Stage::Unseal { data },
            (Stage::Unseal { .. }, AttemptEvent::Data(data)) => {
                match Message::decode(data.as_slice()) {
                    Ok(reply) => Stage::SealClose { reply },
                    Err(error) => {
                        return Step::Finished(Err(AttemptError::Return(Error::Proto(error))));
                    },
                }
            },
            (Stage::SealClose { reply }, AttemptEvent::Data(data)) => {
                Stage::WriteClose { reply, data }
            },
            (Stage::WriteClose { reply, .. }, _) => {
                return Step::Finished(Ok(reply));
            },
            (_, _) => unreached(),
        };
        Step::Next(Attempt { plan, stage })
    }
}

impl StageView {
    /// How many calls an attempt makes from a stage on, at most.
    pub open spec fn calls_left(self) -> int {
        match self {
            // Once resolved, the host may have any number of addresses.
            StageView::Resolve { .. } => 0,
            StageView::Connect { count, index } => count - index + 17,
            StageView::OpenContext => 17,
            StageView::OpenCache => 16,
            StageView::CachePrincipal => 15,
            StageView::ParseName => 14,
            StageView::LocalAddress => 13,
            StageView::PeerAddress { .. } => 12,
            StageView::NewAuth { .. } => 11,
            StageView::SetAddresses { .. } => 10,
            StageView::SetFlags => 9,
            StageView::SendAuth => 8,
            StageView::SetDummyAddresses => 7,
            StageView::Seal => 6,
            StageView::Write { .. } => 5,
            StageView::Read => 4,
            StageView::Unseal { .. } => 3,
            StageView::SealClose { .. } => 2,
            StageView::WriteClose { .. } => 1,
        }
    }

    /// The address that is tried is one of those resolved.
    pub open spec fn wf(self) -> bool {
        self matches StageView::Connect { count, index } ==> 0 <= index < count
    }
}

/// Every attempt ends: resolving comes first and once, and each later call
/// brings the end nearer.
pub proof fn law_attempt_ends(attempt: AttemptView, event: AttemptEventView)
    requires
        attempt.stage.wf(),
        can_answer(attempt.call(), event),
    ensures
        attempt.next(event) matches StepView::Next(next) ==> {
            &&& next.stage.wf()
            &&& !(next.stage is Resolve)
            &&& next.stage.calls_left() > 0
            &&& attempt.stage is Resolve || next.stage.calls_left() < attempt.stage.calls_left()
        },
{
}

/// An attempt keeps to its plan, and a session that is set up stays set up
/// until the attempt ends.
pub proof fn law_session_stays(attempt: AttemptView, event: AttemptEventView)
    requires
        can_answer(attempt.call(), event),
    ensures
        attempt.next(event) matches StepView::Next(next) ==> {
            &&& next.plan == attempt.plan
            &&& !attempt.stage.before_session() ==> !next.stage.before_session()
        },
{
}

/// Another attempt is allowed exactly for failures before the session is set
/// up. From then on a failure is final.
pub proof fn law_retry_before_session_only(attempt: AttemptView, event: AttemptEventView)
    requires
        can_answer(attempt.call(), event),
    ensures
        attempt.next(event) matches StepView::Finished(Err(error)) ==> (error is Retry
            <==> attempt.stage.before_session()),
{
}

/// No request leaves the machine outside a session: neither sealing nor writing
/// is asked for before authentication has succeeded.
pub proof fn law_request_needs_session(attempt: AttemptView)
    ensures
        attempt.call() is Seal || attempt.call() is Write || attempt.call() is Read
            || attempt.call() is Unseal ==> !attempt.stage.before_session(),
        attempt.call() == AttemptCallView::Seal(attempt.plan.request) && attempt.plan.request
            != close_message().encoding() ==> attempt.stage is Seal,
{
}

/// Once a reply was decoded it is returned, whatever becomes of the notice that
/// the session ends.
pub proof fn law_reply_survives_close(
    attempt: AttemptView,
    plaintext: Seq<u8>,
    sealed: AttemptEventView,
    written: AttemptEventView,
)
    requires
        attempt.stage is Unseal,
        proto::decoded_message(plaintext) is Ok,
        can_answer(AttemptCallView::Seal(close_message().encoding()), sealed),
        sealed matches AttemptEventView::Data(data) ==> can_answer(
            AttemptCallView::Write(data),
            written,
        ),
    ensures
        machine::run(attempt, seq![AttemptEventView::Data(plaintext), sealed, written]).1
            == StepView::<AttemptView, MessageView, AttemptErrorView>::Finished(
            Ok(proto::decoded_message(plaintext)->Ok_0),
        ),
{
    reveal_with_fuel(machine::run, 4);
}

/// A message that the daemon sealed is the message that the attempt returns.
pub proof fn law_reply_is_the_sealed_message(
    attempt: AttemptView,
    reply: MessageView,
    sealed: AttemptEventView,
    written: AttemptEventView,
)
    requires
        attempt.stage is Unseal,
        reply.body.len() <= proto::MAX_DATA_LENGTH,
        can_answer(AttemptCallView::Seal(close_message().encoding()), sealed),
        sealed matches AttemptEventView::Data(data) ==> can_answer(
            AttemptCallView::Write(data),
            written,
        ),
    ensures
        machine::run(
            attempt,
            seq![AttemptEventView::Data(reply.encoding()), sealed, written],
        ).1 == StepView::<AttemptView, MessageView, AttemptErrorView>::Finished(Ok(reply)),
{
    proto::law_decode_undoes_encode(reply);
    law_reply_survives_close(attempt, reply.encoding(), sealed, written);
}

/// The events of connections that failed.
pub open spec fn refusals(errors: Seq<IoErrorView>) -> Seq<AttemptEventView> {
    Seq::new(errors.len(), |i: int| AttemptEventView::IoFailed(errors[i]))
}

/// Connections to the addresses from `index` on.
pub open spec fn connections(index: int, count: int, timeout: Duration) -> Seq<AttemptCallView> {
    Seq::new(
        (count - index) as nat,
        |i: int| AttemptCallView::Connect { index: index + i, timeout },
    )
}

/// Connections are tried at the addresses in turn, each once and with the
/// configured time limit. If all of them fail the attempt ends with the last
/// failure.
pub proof fn law_every_address_is_tried(
    plan: PlanView,
    count: int,
    index: int,
    errors: Seq<IoErrorView>,
)
    requires
        0 <= index < count,
        errors.len() == count - index,
    ensures
        machine::run(
            AttemptView { plan, stage: StageView::Connect { count, index } },
            refusals(errors),
        ) == (connections(index, count, plan.timeout), retry(ErrorView::Io(errors.last()))),
    decreases count - index,
{
    let attempt = AttemptView { plan, stage: StageView::Connect { count, index } };
    let first = AttemptEventView::IoFailed(errors[0]);
    let rest = errors.skip(1);
    assert(refusals(errors) =~= seq![first] + refusals(rest));
    machine::lemma_run_first(attempt, first, refusals(rest));
    if index + 1 < count {
        law_every_address_is_tried(plan, count, index + 1, rest);
        assert(rest.last() == errors.last());
        assert(connections(index, count, plan.timeout) =~= seq![attempt.call()] + connections(
            index + 1,
            count,
            plan.timeout,
        ));
    } else {
        assert(connections(index, count, plan.timeout) =~= seq![attempt.call()]);
    }
}

/// The calls that set up a session, in their order.
pub open spec fn setup_calls(plan: PlanView, port: u16, local: Ipv4, remote: Ipv4) -> Seq<
    AttemptCallView,
> {
    seq![
        AttemptCallView::Resolve { host: plan.server.address, port },
        AttemptCallView::Connect { index: 0, timeout: plan.timeout },
        AttemptCallView::OpenContext,
        AttemptCallView::OpenCache(plan.ccache),
        AttemptCallView::CachePrincipal,
        AttemptCallView::ParseName(plan.server.principal),
        AttemptCallView::LocalAddress,
        AttemptCallView::PeerAddress,
        AttemptCallView::NewAuth,
        AttemptCallView::SetAddresses {
            local: krb5::inet_record(local),
            remote: krb5::inet_record(remote),
        },
        AttemptCallView::SetFlags(AUTH_CONTEXT_DO_SEQUENCE),
        authentication(),
    ]
}

/// A session is set up by resolving and connecting, by reading the cache, and
/// by mutual authentication under the version of AUKS, with a subsession key,
/// sequence numbers and the addresses of the two ends.
pub proof fn law_session_setup(
    plan: PlanView,
    port: u16,
    count: int,
    local: Ipv4,
    remote: Ipv4,
)
    requires
        count > 0,
    ensures
        machine::run(
            AttemptView { plan, stage: StageView::Resolve { port } },
            seq![
                AttemptEventView::Resolved(count),
                AttemptEventView::Done,
                AttemptEventView::Done,
                AttemptEventView::Done,
                AttemptEventView::Done,
                AttemptEventView::Done,
                AttemptEventView::Endpoint(Endpoint::V4(local)),
                AttemptEventView::Endpoint(Endpoint::V4(remote)),
                AttemptEventView::Done,
                AttemptEventView::Done,
                AttemptEventView::Done,
                AttemptEventView::Done,
            ],
        ) == (
            setup_calls(plan, port, local, remote),
            plan.at(
                if plan.nat {
                    StageView::SetDummyAddresses
                } else {
                    StageView::Seal
                },
            ),
        ),
{
    reveal_with_fuel(machine::run, 13);
}

/// Behind NAT both ends get the dummy address once authentication is done, and
/// only then is the request sealed.
pub proof fn law_nat_hides_addresses(plan: PlanView)
    ensures
        machine::run(
            AttemptView { plan, stage: StageView::SetDummyAddresses },
            seq![AttemptEventView::Done],
        ) == (
            seq![
                AttemptCallView::SetAddresses {
                    local: krb5::dummy_record(),
                    remote: krb5::dummy_record(),
                },
            ],
            plan.at(StageView::Seal),
        ),
{
    reveal_with_fuel(machine::run, 2);
}

/// In a session the request is sealed and written once, the reply is read and
/// opened, and the daemon is told that the session ends.
pub proof fn law_session_calls(
    plan: PlanView,
    sealed: Seq<u8>,
    answer: Seq<u8>,
    reply: MessageView,
    notice: Seq<u8>,
)
    requires
        reply.body.len() <= proto::MAX_DATA_LENGTH,
    ensures
        machine::run(
            AttemptView { plan, stage: StageView::Seal },
            seq![
                AttemptEventView::Data(sealed),
                AttemptEventView::Done,
                AttemptEventView::Data(answer),
                AttemptEventView::Data(reply.encoding()),
                AttemptEventView::Data(notice),
                AttemptEventView::Done,
            ],
        ) == (
            seq![
                AttemptCallView::Seal(plan.request),
                AttemptCallView::Write(sealed),
                AttemptCallView::Read,
                AttemptCallView::Unseal(answer),
                AttemptCallView::Seal(close_message().encoding()),
                AttemptCallView::Write(notice),
            ],
            StepView::<AttemptView, MessageView, AttemptErrorView>::Finished(Ok(reply)),
        ),
{
    proto::law_decode_undoes_encode(reply);
    reveal_with_fuel(machine::run, 7);
}

/// The events of a session that is set up without a failure.
pub open spec fn setup_events(count: int, local: Ipv4, remote: Ipv4) -> Seq<AttemptEventView> {
    seq![
        AttemptEventView::Resolved(count),
        AttemptEventView::Done,
        AttemptEventView::Done,
        AttemptEventView::Done,
        AttemptEventView::Done,
        AttemptEventView::Done,
        AttemptEventView::Endpoint(Endpoint::V4(local)),
        AttemptEventView::Endpoint(Endpoint::V4(remote)),
        AttemptEventView::Done,
        AttemptEventView::Done,
        AttemptEventView::Done,
        AttemptEventView::Done,
    ]
}

/// An IPv4 address as the authentication context gets it: type 2, four octets.
pub open spec fn octets(address: Ipv4) -> AddressView {
    AddressView {
        addrtype: 2i32,
        contents: seq![address.a, address.b, address.c, address.d],
    }
}

/// The address that hides both ends: type 2, and the letters of `dummy`.
pub open spec fn hidden_address() -> AddressView {
    AddressView { addrtype: 2i32, contents: seq![100u8, 117u8, 109u8, 109u8, 121u8] }
}

/// What is asked for up to authentication, with every value that goes into it.
pub open spec fn calls_to_authentication(
    plan: PlanView,
    port: u16,
    local: Ipv4,
    remote: Ipv4,
) -> Seq<AttemptCallView> {
    seq![
        AttemptCallView::Resolve { host: plan.server.address, port },
        AttemptCallView::Connect { index: 0, timeout: plan.timeout },
        AttemptCallView::OpenContext,
        AttemptCallView::OpenCache(plan.ccache),
        AttemptCallView::CachePrincipal,
        AttemptCallView::ParseName(plan.server.principal),
        AttemptCallView::LocalAddress,
        AttemptCallView::PeerAddress,
        AttemptCallView::NewAuth,
        AttemptCallView::SetAddresses { local: octets(local), remote: octets(remote) },
        AttemptCallView::SetFlags(4),
        AttemptCallView::SendAuth { version: "0.1"@, options: 0x2000_0001 },
    ]
}

/// Between authentication and the sealing of the request, both ends get the
/// dummy address where the connection crosses a NAT, and nothing happens where
/// it does not.
pub proof fn law_request_is_sealed_in_a_session(
    plan: PlanView,
    port: u16,
    count: int,
    local: Ipv4,
    remote: Ipv4,
    sealed: Seq<u8>,
)
    requires
        count > 0,
    ensures
        plan.nat ==> machine::run(
            AttemptView { plan, stage: StageView::Resolve { port } },
            setup_events(count, local, remote) + seq![
                AttemptEventView::Done,
                AttemptEventView::Data(sealed),
            ],
        ) == (
            calls_to_authentication(plan, port, local, remote) + seq![
                AttemptCallView::SetAddresses {
                    local: hidden_address(),
                    remote: hidden_address(),
                },
                AttemptCallView::Seal(plan.request),
            ],
            plan.at(StageView::Write { data: sealed }),
        ),
        !plan.nat ==> machine::run(
            AttemptView { plan, stage: StageView::Resolve { port } },
            setup_events(count, local, remote) + seq![AttemptEventView::Data(sealed)],
        ) == (
            calls_to_authentication(plan, port, local, remote) + seq![
                AttemptCallView::Seal(plan.request),
            ],
            plan.at(StageView::Write { data: sealed }),
        ),
{
    let state = AttemptView { plan, stage: StageView::Resolve { port } };
    law_session_setup(plan, port, count, local, remote);
    let events = setup_events(count, local, remote);
    let calls = calls_to_authentication(plan, port, local, remote);
    assert(setup_calls(plan, port, local, remote) =~= calls);
    assert(hidden_address().contents =~= krb5::dummy_record().contents);
    if plan.nat {
        let hiding = AttemptView { plan, stage: StageView::SetDummyAddresses };
        machine::lemma_run_on(
            state,
            events,
            seq![AttemptEventView::Done, AttemptEventView::Data(sealed)],
        );
        assert(machine::run(
            hiding,
            seq![AttemptEventView::Done, AttemptEventView::Data(sealed)],
        ) == (
            seq![
                AttemptCallView::SetAddresses {
                    local: hidden_address(),
                    remote: hidden_address(),
                },
                AttemptCallView::Seal(plan.request),
            ],
            plan.at(StageView::Write { data: sealed }),
        )) by {
            reveal_with_fuel(machine::run, 3);
        }
    } else {
        let sealing = AttemptView { plan, stage: StageView::Seal };
        machine::lemma_run_on(state, events, seq![AttemptEventView::Data(sealed)]);
        assert(machine::run(sealing, seq![AttemptEventView::Data(sealed)]) == (
            seq![AttemptCallView::Seal(plan.request)],
            plan.at(StageView::Write { data: sealed }),
        )) by {
            reveal_with_fuel(machine::run, 2);
        }
    }
}

/// An attempt at a server whose port is a number from 0 to 65535 begins by
/// resolving at that port. Any other port ends it before it begins, and another
/// server may be tried.
pub proof fn law_port_decides_the_beginning(plan: PlanView, port: u16)
    ensures
        plan.server.port == text::nat_text(port as nat) ==> plan.start() == StepView::<
            AttemptView,
            MessageView,
            AttemptErrorView,
        >::Next(AttemptView { plan, stage: StageView::Resolve { port } }),
        text::parsed_number(plan.server.port, 65535) is None ==> plan.start() == StepView::<
            AttemptView,
            MessageView,
            AttemptErrorView,
        >::Finished(
            Err(
                AttemptErrorView::Retry(
                    ErrorView::Io(
                        IoErrorView {
                            kind: IoErrorKind::InvalidInput,
                            message: "invalid TCP port "@ + plan.server.port,
                        },
                    ),
                ),
            ),
        ),
        text::parsed_number(plan.server.port, 65535) matches Some(number) ==> plan.start()
            == StepView::<AttemptView, MessageView, AttemptErrorView>::Next(
            AttemptView { plan, stage: StageView::Resolve { port: number as u16 } },
        ),
{
    text::law_decimal_round_trip(port as nat, 65535);
}

/// A call that fails before authentication has succeeded ends the attempt with
/// that failure, and another attempt is allowed. From then on the failure is
/// final, up to the reply.
pub proof fn law_failed_calls(attempt: AttemptView, io: IoErrorView, kerberos: krb5::ErrorView)
    ensures
        attempt.stage is Resolve || attempt.stage is OpenContext || attempt.stage is OpenCache
            || attempt.stage is CachePrincipal || attempt.stage is ParseName
            || attempt.stage is LocalAddress || attempt.stage is PeerAddress
            || attempt.stage is NewAuth || attempt.stage is SetAddresses
            || attempt.stage is SetFlags || attempt.stage is SendAuth ==> {
            &&& attempt.next(AttemptEventView::IoFailed(io)) == StepView::<
                AttemptView,
                MessageView,
                AttemptErrorView,
            >::Finished(Err(AttemptErrorView::Retry(ErrorView::Io(io))))
            &&& attempt.next(AttemptEventView::Krb5Failed(kerberos)) == StepView::<
                AttemptView,
                MessageView,
                AttemptErrorView,
            >::Finished(Err(AttemptErrorView::Retry(ErrorView::Krb5(kerberos))))
        },
        attempt.stage is SetDummyAddresses || attempt.stage is Seal || attempt.stage is Write
            || attempt.stage is Read || attempt.stage is Unseal ==> {
            &&& attempt.next(AttemptEventView::IoFailed(io)) == StepView::<
                AttemptView,
                MessageView,
                AttemptErrorView,
            >::Finished(Err(AttemptErrorView::Return(ErrorView::Io(io))))
            &&& attempt.next(AttemptEventView::Krb5Failed(kerberos)) == StepView::<
                AttemptView,
                MessageView,
                AttemptErrorView,
            >::Finished(Err(AttemptErrorView::Return(ErrorView::Krb5(kerberos))))
        },
{
}

/// The failure with which an attempt ends by itself, so that another one may be
/// made.
pub open spec fn ends_with(step: AttemptStepView, kind: IoErrorKind, message: Seq<char>) -> bool {
    step matches StepView::Finished(Err(AttemptErrorView::Retry(ErrorView::Io(error))))
        && error.kind == kind && error.message == message
}

/// A host without an address and an end without an IPv4 address end the attempt
/// in a way that allows another one; any other number of addresses and IPv4
/// ends do not. The first connection that succeeds is used, whichever it is.
pub proof fn law_unusable_hosts_and_ends(
    plan: PlanView,
    port: u16,
    count: int,
    index: int,
    local: Ipv4,
    remote: Ipv4,
)
    requires
        count > 0,
    ensures
        ends_with(
            (AttemptView { plan, stage: StageView::Resolve { port } }).next(
                AttemptEventView::Resolved(0),
            ),
            IoErrorKind::AddrNotAvailable,
            "no resolved server address"@,
        ),
        (AttemptView { plan, stage: StageView::Resolve { port } }).next(
            AttemptEventView::Resolved(count),
        ) == plan.at(StageView::Connect { count, index: 0 }),
        (AttemptView { plan, stage: StageView::Connect { count, index } }).next(
            AttemptEventView::Done,
        ) == plan.at(StageView::OpenContext),
        ends_with(
            (AttemptView { plan, stage: StageView::LocalAddress }).next(
                AttemptEventView::Endpoint(Endpoint::V6),
            ),
            IoErrorKind::InvalidInput,
            "IPv6 local endpoint is unsupported"@,
        ),
        ends_with(
            (AttemptView { plan, stage: StageView::PeerAddress { local } }).next(
                AttemptEventView::Endpoint(Endpoint::V6),
            ),
            IoErrorKind::InvalidInput,
            "IPv6 remote endpoint is unsupported"@,
        ),
        (AttemptView { plan, stage: StageView::PeerAddress { local } }).next(
            AttemptEventView::Endpoint(Endpoint::V4(remote)),
        ) == plan.at(StageView::NewAuth { local, remote }),
{
}

/// What the daemon sealed and is no message ends the attempt for good, with the
/// reason why it is none; and the notice that the session ends is a request of
/// type 5 without a body.
pub proof fn law_malformed_reply_is_final(attempt: AttemptView, plaintext: Seq<u8>)
    requires
        attempt.stage is Unseal,
    ensures
        proto::decoded_message(plaintext) matches Err(error) ==> attempt.next(
            AttemptEventView::Data(plaintext),
        ) == StepView::<AttemptView, MessageView, AttemptErrorView>::Finished(
            Err(AttemptErrorView::Return(ErrorView::Proto(error))),
        ),
        proto::decoded_message(plaintext) matches Ok(reply) ==> {
            &&& attempt.next(AttemptEventView::Data(plaintext)) == attempt.plan.at(
                StageView::SealClose { reply },
            )
            &&& (AttemptView { plan: attempt.plan, stage: StageView::SealClose { reply } }).call()
                == AttemptCallView::Seal(seq![0u8, 0u8, 0u8, 5u8])
        },
{
    proto::law_message_layout(close_message());
    assert(close_message().encoding() =~= seq![0u8, 0u8, 0u8, 5u8]);
}

/// Which events come of which calls: failures of the resolver and the network
/// come of resolving, connecting and reading the ends, failures of Kerberos of
/// all other calls, and each call succeeds in one way.
pub proof fn law_events_fit_calls(call: AttemptCallView, event: AttemptEventView)
    ensures
        can_answer(call, event) <==> match event {
            AttemptEventView::IoFailed(_) => call is Resolve || call is Connect
                || call is LocalAddress || call is PeerAddress,
            AttemptEventView::Krb5Failed(_) => !(call is Resolve || call is Connect
                || call is LocalAddress || call is PeerAddress),
            AttemptEventView::Resolved(count) => call is Resolve && count >= 0,
            AttemptEventView::Endpoint(_) => call is LocalAddress || call is PeerAddress,
            AttemptEventView::Data(_) => call is Seal || call is Read || call is Unseal,
            AttemptEventView::Done => call is Connect || call is OpenContext || call is OpenCache
                || call is CachePrincipal || call is ParseName || call is NewAuth
                || call is SetAddresses || call is SetFlags || call is SendAuth || call is Write,
        },
{
}

} // verus!
