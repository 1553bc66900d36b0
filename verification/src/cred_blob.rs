//! Serialized Kerberos credentials: reading them out of a cache, storing them
//! in one, and what they tell.
//!
//! Each operation is a state machine over the calls into the Kerberos library
//! that it makes. Its caller performs the call that the machine asks for and
//! hands back what came of it.
use crate::krb5::{self, c_string, Creds, CredsView, Error, ErrorView, Principal, PrincipalView};
use crate::machine::{self, Machine, Step, StepView};
use vstd::pervasive::unreached;
use vstd::prelude::*;
use vstd::slice::slice_to_vec;

verus! {

/// A call into the Kerberos library.
#[derive(Debug, PartialEq, Eq)]
pub enum BlobCall {
    /// Read the principal of the cache.
    CachePrincipal,
    /// Read the credentials of the cache.
    ListCreds,
    /// Make an authentication context.
    NewAuth,
    /// Set the flags of the authentication context.
    SetFlags(u32),
    /// Serialize credentials out of those listed, in this order.
    MakeCreds(Vec<usize>),
    /// Obtain a forwarded credential for the server that a NUL-terminated
    /// string names.
    Forward {
        /// Name of the server.
        server: Vec<u8>,
        /// Options of the request.
        options: u32,
    },
    /// Read the credentials that were forwarded.
    ReadForwarded,
    /// Serialize one of the credentials read.
    MakeOne(usize),
    /// Read the credentials of a blob.
    ReadCreds(Vec<u8>),
    /// Initialize the cache for the client of one of the credentials read.
    InitializeCache(usize),
    /// Store one of the credentials read.
    StoreCreds(usize),
}

/// A call as a value.
pub enum BlobCallView {
    CachePrincipal,
    ListCreds,
    NewAuth,
    SetFlags(u32),
    MakeCreds(Seq<int>),
    Forward { server: Seq<u8>, options: u32 },
    ReadForwarded,
    MakeOne(int),
    ReadCreds(Seq<u8>),
    InitializeCache(int),
    StoreCreds(int),
}

/// Positions as numbers.
pub open spec fn positions(order: Seq<usize>) -> Seq<int> {
    Seq::new(order.len(), |i: int| order[i] as int)
}

impl View for BlobCall {
    type V = BlobCallView;

    open spec fn view(&self) -> BlobCallView {
        match self {
            BlobCall::CachePrincipal => BlobCallView::CachePrincipal,
            BlobCall::ListCreds => BlobCallView::ListCreds,
            BlobCall::NewAuth => BlobCallView::NewAuth,
            BlobCall::SetFlags(flags) => BlobCallView::SetFlags(*flags),
            BlobCall::MakeCreds(order) => BlobCallView::MakeCreds(positions(order@)),
            BlobCall::Forward { server, options } => BlobCallView::Forward {
                server: server@,
                options: *options,
            },
            BlobCall::ReadForwarded => BlobCallView::ReadForwarded,
            BlobCall::MakeOne(index) => BlobCallView::MakeOne(*index as int),
            BlobCall::ReadCreds(blob) => BlobCallView::ReadCreds(blob@),
            BlobCall::InitializeCache(index) => BlobCallView::InitializeCache(*index as int),
            BlobCall::StoreCreds(index) => BlobCallView::StoreCreds(*index as int),
        }
    }
}

/// What came of a call.
#[derive(Debug, PartialEq, Eq)]
pub enum BlobEvent {
    /// The call failed.
    Failed(Error),
    /// The call succeeded and returned nothing.
    Done,
    /// The call returned a principal.
    Principal(Principal),
    /// The call returned credentials.
    Creds(Vec<Creds>),
    /// The call succeeded and returned data, or no data at all.
    Data(Option<Vec<u8>>),
}

/// What came of a call, as a value.
pub enum BlobEventView {
    Failed(ErrorView),
    Done,
    Principal(PrincipalView),
    Creds(Seq<CredsView>),
    Data(Option<Seq<u8>>),
}

/// The values of credentials.
pub open spec fn creds_views(creds: Seq<Creds>) -> Seq<CredsView> {
    Seq::new(creds.len(), |i: int| creds[i]@)
}

impl View for BlobEvent {
    type V = BlobEventView;

    open spec fn view(&self) -> BlobEventView {
        match self {
            BlobEvent::Failed(error) => BlobEventView::Failed(error@),
            BlobEvent::Done => BlobEventView::Done,
            BlobEvent::Principal(principal) => BlobEventView::Principal(principal@),
            BlobEvent::Creds(creds) => BlobEventView::Creds(creds_views(creds@)),
            BlobEvent::Data(data) => BlobEventView::Data(krb5::optional_bytes(*data)),
        }
    }
}

/// Whether an event can come of a call.
pub open spec fn can_answer(call: BlobCallView, event: BlobEventView) -> bool {
    event is Failed || match call {
        BlobCallView::CachePrincipal => event is Principal,
        BlobCallView::ListCreds | BlobCallView::ReadForwarded | BlobCallView::ReadCreds(_) => {
            event is Creds
        },
        BlobCallView::MakeCreds(_) | BlobCallView::MakeOne(_) => event is Data,
        _ => event is Done,
    }
}

/// Whether an event can come of a call.
pub fn answers(call: &BlobCall, event: &BlobEvent) -> (fits: bool)
    ensures
        fits == can_answer(call@, event@),
{
    match event {
        BlobEvent::Failed(_) => true,
        BlobEvent::Principal(_) => matches!(call, BlobCall::CachePrincipal),
        BlobEvent::Creds(_) => matches!(
            call,
            BlobCall::ListCreds | BlobCall::ReadForwarded | BlobCall::ReadCreds(_)
        ),
        BlobEvent::Data(_) => matches!(call, BlobCall::MakeCreds(_) | BlobCall::MakeOne(_)),
        BlobEvent::Done => match call {
            BlobCall::NewAuth => true,
            BlobCall::SetFlags(_) => true,
            BlobCall::Forward { .. } => true,
            BlobCall::InitializeCache(_) => true,
            BlobCall::StoreCreds(_) => true,
            _ => false,
        },
    }
}

/// Whether a credential goes into a blob: a ticket-granting ticket of the
/// realm itself, or one of the realm for another.
pub open spec fn is_exported(creds: CredsView, realm: Seq<char>) -> bool {
    creds.is_tgt(realm) || creds.is_crossrealm_tgt(realm)
}

/// The position of the first ticket-granting ticket of the realm, from
/// position `from` on. Without one, the number of credentials.
pub open spec fn local_tgt(creds: Seq<CredsView>, realm: Seq<char>, from: int) -> int
    decreases creds.len() - from,
{
    if from >= creds.len() {
        creds.len() as int
    } else if creds[from].is_tgt(realm) {
        from
    } else {
        local_tgt(creds, realm, from + 1)
    }
}

/// The positions below `end` of the credentials that go into a blob behind
/// that at position `local`.
pub open spec fn exported_others(
    creds: Seq<CredsView>,
    realm: Seq<char>,
    local: int,
    end: nat,
) -> Seq<int>
    decreases end,
{
    if end == 0 {
        Seq::empty()
    } else {
        let before = exported_others(creds, realm, local, (end - 1) as nat);
        if end - 1 != local && is_exported(creds[end - 1], realm) {
            before.push(end - 1)
        } else {
            before
        }
    }
}

/// The order in which the credentials of a cache go into a blob: the realm's
/// own ticket-granting ticket first.
pub open spec fn exported(creds: Seq<CredsView>, realm: Seq<char>) -> Result<Seq<int>, ErrorView> {
    let local = local_tgt(creds, realm, 0);
    if local >= creds.len() {
        Err(krb5::input_error("cred_blob::get"@, "no local TGT in cache"@))
    } else {
        Ok(seq![local] + exported_others(creds, realm, local, creds.len()))
    }
}

/// Picks the credentials of a cache that go into a blob, the realm's own
/// ticket-granting ticket first.
pub fn export_order(creds: &Vec<Creds>, realm: &str) -> (order: Result<Vec<usize>, Error>)
    ensures
        match exported(creds_views(creds@), realm@) {
            Ok(expected) => order is Ok && positions(order->Ok_0@) == expected,
            Err(error) => order is Err && order->Err_0@ == error,
        },
{
    let ghost views = creds_views(creds@);
    let mut local: usize = 0;
    while local < creds.len() && !creds[local].is_tgt(realm)
        invariant
            local <= creds@.len(),
            views == creds_views(creds@),
            local_tgt(views, realm@, 0) == local_tgt(views, realm@, local as int),
        decreases creds@.len() - local,
    {
        local = local + 1;
    }
    if local >= creds.len() {
        return Err(Error::input("cred_blob::get", "no local TGT in cache".to_owned()));
    }
    let mut order: Vec<usize> = Vec::new();
    order.push(local);
    let mut at: usize = 0;
    assert(positions(order@) =~= seq![local as int] + exported_others(
        views,
        realm@,
        local as int,
        0,
    ));
    while at < creds.len()
        invariant
            at <= creds@.len(),
            views == creds_views(creds@),
            positions(order@) == seq![local as int] + exported_others(
                views,
                realm@,
                local as int,
                at as nat,
            ),
        decreases creds@.len() - at,
    {
        let ghost before = order@;
        let wanted = at != local && (creds[at].is_tgt(realm) || creds[at].is_crossrealm_tgt(realm));
        assert(views[at as int] == creds@[at as int]@);
        if wanted {
            order.push(at);
            assert(positions(order@) =~= positions(before).push(at as int));
        }
        at = at + 1;
        assert(positions(order@) =~= seq![local as int] + exported_others(
            views,
            realm@,
            local as int,
            at as nat,
        ));
    }
    Ok(order)
}

proof fn lemma_local_tgt(creds: Seq<CredsView>, realm: Seq<char>, from: int)
    requires
        0 <= from <= creds.len(),
    ensures
        from <= local_tgt(creds, realm, from) <= creds.len(),
        local_tgt(creds, realm, from) < creds.len() ==> creds[local_tgt(creds, realm, from)].is_tgt(
            realm,
        ),
        forall|i: int| from <= i < local_tgt(creds, realm, from) ==> !(#[trigger] creds[i]).is_tgt(realm),
    decreases creds.len() - from,
{
    if from < creds.len() && !creds[from].is_tgt(realm) {
        lemma_local_tgt(creds, realm, from + 1);
    }
}

proof fn lemma_exported_others(creds: Seq<CredsView>, realm: Seq<char>, local: int, end: nat)
    requires
        end <= creds.len(),
    ensures
        forall|i: int|
            0 <= i < exported_others(creds, realm, local, end).len() ==> {
                let at = #[trigger] exported_others(creds, realm, local, end)[i];
                0 <= at < end && at != local && is_exported(creds[at], realm)
            },
        forall|i: int, j: int|
            0 <= i < j < exported_others(creds, realm, local, end).len()
                ==> #[trigger] exported_others(creds, realm, local, end)[i]
                < #[trigger] exported_others(creds, realm, local, end)[j],
        forall|at: int|
            0 <= at < end && at != local && is_exported(#[trigger] creds[at], realm)
                ==> exported_others(creds, realm, local, end).contains(at),
    decreases end,
{
    if end > 0 {
        let before = exported_others(creds, realm, local, (end - 1) as nat);
        let now = exported_others(creds, realm, local, end);
        lemma_exported_others(creds, realm, local, (end - 1) as nat);
        assert forall|at: int|
            0 <= at < end && at != local && is_exported(#[trigger] creds[at], realm) implies now.contains(
            at,
        ) by {
            if at == end - 1 {
                assert(now[now.len() - 1] == at);
            } else {
                let i = choose|i: int| 0 <= i < before.len() && before[i] == at;
                assert(now[i] == at);
            }
        }
    }
}

/// A blob begins with the first ticket-granting ticket of the realm in the
/// cache. Behind it every other exported credential stands once, in the order
/// of the cache, and nothing else.
pub proof fn law_export_order(creds: Seq<CredsView>, realm: Seq<char>)
    requires
        exported(creds, realm) is Ok,
    ensures
        ({
            let order = exported(creds, realm)->Ok_0;
            &&& order.len() > 0
            &&& 0 <= order[0] < creds.len() && creds[order[0]].is_tgt(realm)
            &&& forall|i: int| 0 <= i < order[0] ==> !(#[trigger] creds[i]).is_tgt(realm)
            &&& forall|i: int, j: int|
                1 <= i < j < order.len() ==> #[trigger] order[i] < #[trigger] order[j]
            &&& forall|i: int|
                0 <= i < order.len() ==> 0 <= #[trigger] order[i] < creds.len() && is_exported(
                    creds[order[i]],
                    realm,
                )
            &&& forall|i: int| 1 <= i < order.len() ==> #[trigger] order[i] != order[0]
            &&& forall|at: int|
                0 <= at < creds.len() && is_exported(#[trigger] creds[at], realm) ==> order.contains(at)
        }),
{
    let local = local_tgt(creds, realm, 0);
    let others = exported_others(creds, realm, local, creds.len());
    let order = exported(creds, realm)->Ok_0;
    lemma_local_tgt(creds, realm, 0);
    lemma_exported_others(creds, realm, local, creds.len());
    assert forall|i: int| 1 <= i < order.len() implies #[trigger] order[i] == others[i - 1] by {}
    assert forall|at: int|
        0 <= at < creds.len() && is_exported(#[trigger] creds[at], realm) implies order.contains(
        at,
    ) by {
        if at == local {
            assert(order[0] == at);
        } else {
            let i = choose|i: int| 0 <= i < others.len() && others[i] == at;
            assert(order[i + 1] == at);
        }
    }
}

/// A cache without a ticket-granting ticket of its realm gives no blob.
pub proof fn law_export_needs_local_tgt(creds: Seq<CredsView>, realm: Seq<char>)
    ensures
        exported(creds, realm) is Ok <==> exists|i: int|
            0 <= i < creds.len() && (#[trigger] creds[i]).is_tgt(realm),
{
    lemma_local_tgt(creds, realm, 0);
}

/// Data that a call returned, or the failure to return any.
pub open spec fn returned(data: Option<Seq<u8>>, op: Seq<char>) -> Result<Seq<u8>, ErrorView> {
    match data {
        Some(data) => Ok(data),
        None => Err(krb5::input_error(op, "Kerberos returned a null data pointer"@)),
    }
}

fn copy_data(data: Option<Vec<u8>>, op: &'static str) -> (bytes: Result<Vec<u8>, Error>)
    ensures
        match returned(krb5::optional_bytes(data), op@) {
            Ok(expected) => bytes is Ok && bytes->Ok_0@ == expected,
            Err(error) => bytes is Err && bytes->Err_0@ == error,
        },
{
    match data {
        Some(bytes) => Ok(bytes),
        None => Err(Error::input(op, "Kerberos returned a null data pointer".to_owned())),
    }
}

/// Serializes the ticket-granting tickets of a cache.
#[derive(Debug, PartialEq, Eq)]
pub enum GetBlob {
    /// Reading the principal of the cache.
    Principal,
    /// Reading the credentials of the cache.
    List {
        /// Realm of the cache's principal.
        realm: String,
    },
    /// Making an authentication context.
    Auth {
        /// Credentials to serialize.
        order: Vec<usize>,
    },
    /// Clearing the flags of the authentication context.
    Flags {
        /// Credentials to serialize.
        order: Vec<usize>,
    },
    /// Serializing the credentials.
    Make {
        /// Credentials to serialize.
        order: Vec<usize>,
    },
}

/// The state of [`GetBlob`] as a value.
pub enum GetBlobView {
    Principal,
    List { realm: Seq<char> },
    Auth { order: Seq<int> },
    Flags { order: Seq<int> },
    Make { order: Seq<int> },
}

impl View for GetBlob {
    type V = GetBlobView;

    open spec fn view(&self) -> GetBlobView {
        match self {
            GetBlob::Principal => GetBlobView::Principal,
            GetBlob::List { realm } => GetBlobView::List { realm: realm@ },
            GetBlob::Auth { order } => GetBlobView::Auth { order: positions(order@) },
            GetBlob::Flags { order } => GetBlobView::Flags { order: positions(order@) },
            GetBlob::Make { order } => GetBlobView::Make { order: positions(order@) },
        }
    }
}

impl Machine for GetBlobView {
    type Call = BlobCallView;

    type Event = BlobEventView;

    type Value = Seq<u8>;

    type Failure = ErrorView;

    open spec fn call(self) -> BlobCallView {
        match self {
            GetBlobView::Principal => BlobCallView::CachePrincipal,
            GetBlobView::List { .. } => BlobCallView::ListCreds,
            GetBlobView::Auth { .. } => BlobCallView::NewAuth,
            GetBlobView::Flags { .. } => BlobCallView::SetFlags(0),
            GetBlobView::Make { order } => BlobCallView::MakeCreds(order),
        }
    }

    open spec fn next(self, event: BlobEventView) -> StepView<
        GetBlobView,
        Seq<u8>,
        ErrorView,
    > {
        match event {
            BlobEventView::Failed(error) => StepView::Finished(Err(error)),
            _ => match self {
                GetBlobView::Principal => StepView::Next(
                    GetBlobView::List { realm: event->Principal_0.realm_text() },
                ),
                GetBlobView::List { realm } => match exported(event->Creds_0, realm) {
                    Ok(order) => StepView::Next(GetBlobView::Auth { order }),
                    Err(error) => StepView::Finished(Err(error)),
                },
                GetBlobView::Auth { order } => StepView::Next(GetBlobView::Flags { order }),
                GetBlobView::Flags { order } => StepView::Next(GetBlobView::Make { order }),
                GetBlobView::Make { .. } => StepView::Finished(
                    returned(event->Data_0, "krb5_mk_ncred"@),
                ),
            },
        }
    }
}

fn copy_order(order: &Vec<usize>) -> (copy: Vec<usize>)
    ensures
        copy@ == order@,
{
    let mut copy: Vec<usize> = Vec::new();
    let mut at: usize = 0;
    while at < order.len()
        invariant
            at <= order@.len(),
            copy@ == order@.take(at as int),
        decreases order@.len() - at,
    {
        copy.push(order[at]);
        at = at + 1;
        assert(copy@ =~= order@.take(at as int));
    }
    assert(order@.take(at as int) =~= order@);
    copy
}

impl GetBlob {
    /// The call that is due.
    pub fn call(&self) -> (call: BlobCall)
        ensures
            call@ == self@.call(),
    {
        match self {
            GetBlob::Principal => BlobCall::CachePrincipal,
            GetBlob::List { .. } => BlobCall::ListCreds,
            GetBlob::Auth { .. } => BlobCall::NewAuth,
            GetBlob::Flags { .. } => BlobCall::SetFlags(0),
            GetBlob::Make { order } => BlobCall::MakeCreds(copy_order(order)),
        }
    }

    /// Goes on with what came of the call.
    pub fn step(self, event: BlobEvent) -> (step: Step<GetBlob, Vec<u8>, Error>)
        requires
            can_answer(self@.call(), event@),
        ensures
            step@ == self@.next(event@),
    {
        match (self, event) {
            (_, BlobEvent::Failed(error)) => Step::Finished(Err(error)),
            (GetBlob::Principal, BlobEvent::Principal(principal)) => match principal.realm() {
                Ok(realm) => Step::Next(GetBlob::List { realm }),
                Err(error) => Step::Finished(Err(error)),
            },
            (GetBlob::List { realm }, BlobEvent::Creds(creds)) => {
                match export_order(&creds, realm.as_str()) {
                    Ok(order) => Step::Next(GetBlob::Auth { order }),
                    Err(error) => Step::Finished(Err(error)),
                }
            },
            (GetBlob::Auth { order }, _) => Step::Next(GetBlob::Flags { order }),
            (GetBlob::Flags { order }, _) => Step::Next(GetBlob::Make { order }),
            (_, BlobEvent::Data(data)) => Step::Finished(copy_data(data, "krb5_mk_ncred")),
            (_, _) => unreached(),
        }
    }
}

/// Serializes TGT credentials from a cache.
pub fn get() -> (machine: GetBlob)
    ensures
        machine@ == GetBlobView::Principal,
{
    GetBlob::Principal
}

/// A cache is serialized by reading its principal and its credentials, and by
/// handing those that go into a blob to the library in their order.
pub proof fn law_get_calls(principal: PrincipalView, creds: Seq<CredsView>, data: Seq<u8>)
    requires
        exported(creds, principal.realm_text()) is Ok,
    ensures
        machine::run(
            GetBlobView::Principal,
            seq![
                BlobEventView::Principal(principal),
                BlobEventView::Creds(creds),
                BlobEventView::Done,
                BlobEventView::Done,
                BlobEventView::Data(Some(data)),
            ],
        ) == (
            seq![
                BlobCallView::CachePrincipal,
                BlobCallView::ListCreds,
                BlobCallView::NewAuth,
                BlobCallView::SetFlags(0),
                BlobCallView::MakeCreds(exported(creds, principal.realm_text())->Ok_0),
            ],
            StepView::<GetBlobView, Seq<u8>, ErrorView>::Finished(Ok(data)),
        ),
{
    reveal_with_fuel(machine::run, 6);
}

/// Obtains a forwarded credential and serializes it.
#[derive(Debug, PartialEq, Eq)]
pub enum ForwardBlob {
    /// Reading the principal of the cache.
    Principal {
        /// Server to forward to.
        server: Vec<u8>,
    },
    /// Making an authentication context.
    Auth {
        /// Server to forward to.
        server: Vec<u8>,
    },
    /// Asking the authentication context for the time.
    Flags {
        /// Server to forward to.
        server: Vec<u8>,
    },
    /// Obtaining the credential.
    Forward {
        /// Server to forward to.
        server: Vec<u8>,
    },
    /// Clearing the flags of the authentication context.
    Clear,
    /// Reading what was forwarded.
    Read,
    /// Clearing the flags of the authentication context again.
    ClearAgain,
    /// Serializing the credential.
    Make,
}

/// The state of [`ForwardBlob`] as a value.
pub enum ForwardBlobView {
    Principal { server: Seq<u8> },
    Auth { server: Seq<u8> },
    Flags { server: Seq<u8> },
    Forward { server: Seq<u8> },
    Clear,
    Read,
    ClearAgain,
    Make,
}

impl View for ForwardBlob {
    type V = ForwardBlobView;

    open spec fn view(&self) -> ForwardBlobView {
        match self {
            ForwardBlob::Principal { server } => ForwardBlobView::Principal { server: server@ },
            ForwardBlob::Auth { server } => ForwardBlobView::Auth { server: server@ },
            ForwardBlob::Flags { server } => ForwardBlobView::Flags { server: server@ },
            ForwardBlob::Forward { server } => ForwardBlobView::Forward { server: server@ },
            ForwardBlob::Clear => ForwardBlobView::Clear,
            ForwardBlob::Read => ForwardBlobView::Read,
            ForwardBlob::ClearAgain => ForwardBlobView::ClearAgain,
            ForwardBlob::Make => ForwardBlobView::Make,
        }
    }
}

/// The failure to find a credential in a list of them.
pub open spec fn empty_list(op: Seq<char>) -> ErrorView {
    krb5::input_error(op, "credential list is empty"@)
}

impl Machine for ForwardBlobView {
    type Call = BlobCallView;

    type Event = BlobEventView;

    type Value = Seq<u8>;

    type Failure = ErrorView;

    open spec fn call(self) -> BlobCallView {
        match self {
            ForwardBlobView::Principal { .. } => BlobCallView::CachePrincipal,
            ForwardBlobView::Auth { .. } => BlobCallView::NewAuth,
            ForwardBlobView::Flags { .. } => BlobCallView::SetFlags(krb5::AUTH_CONTEXT_RET_TIME),
            ForwardBlobView::Forward { server } => BlobCallView::Forward {
                server,
                options: krb5::AP_OPTS_MUTUAL_REQUIRED,
            },
            ForwardBlobView::Clear => BlobCallView::SetFlags(0),
            ForwardBlobView::Read => BlobCallView::ReadForwarded,
            ForwardBlobView::ClearAgain => BlobCallView::SetFlags(0),
            ForwardBlobView::Make => BlobCallView::MakeOne(0),
        }
    }

    open spec fn next(self, event: BlobEventView) -> StepView<
        ForwardBlobView,
        Seq<u8>,
        ErrorView,
    > {
        match event {
            BlobEventView::Failed(error) => StepView::Finished(Err(error)),
            _ => match self {
                ForwardBlobView::Principal { server } => StepView::Next(
                    ForwardBlobView::Auth { server },
                ),
                ForwardBlobView::Auth { server } => StepView::Next(
                    ForwardBlobView::Flags { server },
                ),
                ForwardBlobView::Flags { server } => StepView::Next(
                    ForwardBlobView::Forward { server },
                ),
                ForwardBlobView::Forward { .. } => StepView::Next(ForwardBlobView::Clear),
                ForwardBlobView::Clear => StepView::Next(ForwardBlobView::Read),
                ForwardBlobView::Read => if event->Creds_0.len() == 0 {
                    StepView::Finished(Err(empty_list("krb5_mk_1cred"@)))
                } else {
                    StepView::Next(ForwardBlobView::ClearAgain)
                },
                ForwardBlobView::ClearAgain => StepView::Next(ForwardBlobView::Make),
                ForwardBlobView::Make => StepView::Finished(
                    returned(event->Data_0, "krb5_mk_1cred"@),
                ),
            },
        }
    }
}

impl ForwardBlob {
    /// The call that is due.
    pub fn call(&self) -> (call: BlobCall)
        ensures
            call@ == self@.call(),
    {
        match self {
            ForwardBlob::Principal { .. } => BlobCall::CachePrincipal,
            ForwardBlob::Auth { .. } => BlobCall::NewAuth,
            ForwardBlob::Flags { .. } => BlobCall::SetFlags(krb5::AUTH_CONTEXT_RET_TIME),
            ForwardBlob::Forward { server } => BlobCall::Forward {
                server: slice_to_vec(server.as_slice()),
                options: krb5::AP_OPTS_MUTUAL_REQUIRED,
            },
            ForwardBlob::Clear => BlobCall::SetFlags(0),
            ForwardBlob::Read => BlobCall::ReadForwarded,
            ForwardBlob::ClearAgain => BlobCall::SetFlags(0),
            ForwardBlob::Make => BlobCall::MakeOne(0),
        }
    }

    /// Goes on with what came of the call.
    pub fn step(self, event: BlobEvent) -> (step: Step<ForwardBlob, Vec<u8>, Error>)
        requires
            can_answer(self@.call(), event@),
        ensures
            step@ == self@.next(event@),
    {
        match (self, event) {
            (_, BlobEvent::Failed(error)) => Step::Finished(Err(error)),
            (ForwardBlob::Principal { server }, _) => Step::Next(ForwardBlob::Auth { server }),
            (ForwardBlob::Auth { server }, _) => Step::Next(ForwardBlob::Flags { server }),
            (ForwardBlob::Flags { server }, _) => Step::Next(ForwardBlob::Forward { server }),
            (ForwardBlob::Forward { .. }, _) => Step::Next(ForwardBlob::Clear),
            (ForwardBlob::Clear, _) => Step::Next(ForwardBlob::Read),
            (ForwardBlob::Read, BlobEvent::Creds(creds)) => if creds.len() == 0 {
                Step::Finished(
                    Err(Error::input("krb5_mk_1cred", "credential list is empty".to_owned())),
                )
            } else {
                Step::Next(ForwardBlob::ClearAgain)
            },
            (ForwardBlob::ClearAgain, _) => Step::Next(ForwardBlob::Make),
            (_, BlobEvent::Data(data)) => Step::Finished(copy_data(data, "krb5_mk_1cred")),
            (_, _) => unreached(),
        }
    }
}

/// Obtains and serializes a forwarded credential from a KDC.
pub fn get_fwd(server: &str) -> (start: Step<ForwardBlob, Vec<u8>, Error>)
    ensures
        start@ == match krb5::c_string_of(server@, "krb5_fwd_tgt_creds"@) {
            Ok(server) => StepView::<ForwardBlobView, Seq<u8>, ErrorView>::Next(ForwardBlobView::Principal { server }),
            Err(error) => StepView::Finished(Err(error)),
        },
{
    match c_string(server, "krb5_fwd_tgt_creds") {
        Ok(server) => Step::Next(ForwardBlob::Principal { server }),
        Err(error) => Step::Finished(Err(error)),
    }
}

/// A forwarded credential is asked for with mutual authentication, and the
/// first credential that comes back is serialized without flags.
pub proof fn law_forward_calls(
    server: Seq<u8>,
    principal: PrincipalView,
    creds: Seq<CredsView>,
    data: Seq<u8>,
)
    requires
        creds.len() > 0,
    ensures
        machine::run(
            ForwardBlobView::Principal { server },
            seq![
                BlobEventView::Principal(principal),
                BlobEventView::Done,
                BlobEventView::Done,
                BlobEventView::Done,
                BlobEventView::Done,
                BlobEventView::Creds(creds),
                BlobEventView::Done,
                BlobEventView::Data(Some(data)),
            ],
        ) == (
            seq![
                BlobCallView::CachePrincipal,
                BlobCallView::NewAuth,
                BlobCallView::SetFlags(krb5::AUTH_CONTEXT_RET_TIME),
                BlobCallView::Forward { server, options: krb5::AP_OPTS_MUTUAL_REQUIRED },
                BlobCallView::SetFlags(0),
                BlobCallView::ReadForwarded,
                BlobCallView::SetFlags(0),
                BlobCallView::MakeOne(0),
            ],
            StepView::<ForwardBlobView, Seq<u8>, ErrorView>::Finished(Ok(data)),
        ),
{
    reveal_with_fuel(machine::run, 9);
}

/// Stores every credential of a blob in a cache.
#[derive(Debug, PartialEq, Eq)]
pub struct StoreBlob {
    stage: StoreStage,
}

/// How far storing has come.
#[derive(Debug, PartialEq, Eq)]
enum StoreStage {
    /// Making an authentication context.
    Auth {
        /// Blob to store.
        blob: Vec<u8>,
    },
    /// Clearing the flags of the authentication context.
    Flags {
        /// Blob to store.
        blob: Vec<u8>,
    },
    /// Reading the blob.
    Read {
        /// Blob to store.
        blob: Vec<u8>,
    },
    /// Initializing the cache.
    Initialize {
        /// Number of credentials in the blob.
        count: usize,
    },
    /// Storing the credentials.
    Store {
        /// Number of credentials in the blob.
        count: usize,
        /// Credential to store next.
        index: usize,
    },
}

/// The state of [`StoreBlob`] as a value.
pub enum StoreBlobView {
    Auth { blob: Seq<u8> },
    Flags { blob: Seq<u8> },
    Read { blob: Seq<u8> },
    Initialize { count: int },
    Store { count: int, index: int },
}

impl View for StoreBlob {
    type V = StoreBlobView;

    closed spec fn view(&self) -> StoreBlobView {
        match self.stage {
            StoreStage::Auth { blob } => StoreBlobView::Auth { blob: blob@ },
            StoreStage::Flags { blob } => StoreBlobView::Flags { blob: blob@ },
            StoreStage::Read { blob } => StoreBlobView::Read { blob: blob@ },
            StoreStage::Initialize { count } => StoreBlobView::Initialize { count: count as int },
            StoreStage::Store { count, index } => StoreBlobView::Store {
                count: count as int,
                index: index as int,
            },
        }
    }
}

impl StoreBlobView {
    /// The credential that is stored next is one of the blob.
    pub open spec fn wf(self) -> bool {
        match self {
            StoreBlobView::Initialize { count } => count > 0,
            StoreBlobView::Store { count, index } => 0 <= index < count,
            _ => true,
        }
    }
}

impl Machine for StoreBlobView {
    type Call = BlobCallView;

    type Event = BlobEventView;

    type Value = ();

    type Failure = ErrorView;

    open spec fn call(self) -> BlobCallView {
        match self {
            StoreBlobView::Auth { .. } => BlobCallView::NewAuth,
            StoreBlobView::Flags { .. } => BlobCallView::SetFlags(0),
            StoreBlobView::Read { blob } => BlobCallView::ReadCreds(blob),
            StoreBlobView::Initialize { .. } => BlobCallView::InitializeCache(0),
            StoreBlobView::Store { index, .. } => BlobCallView::StoreCreds(index),
        }
    }

    open spec fn next(self, event: BlobEventView) -> StepView<StoreBlobView, (), ErrorView> {
        match event {
            BlobEventView::Failed(error) => StepView::Finished(Err(error)),
            _ => match self {
                StoreBlobView::Auth { blob } => StepView::Next(StoreBlobView::Flags { blob }),
                StoreBlobView::Flags { blob } => StepView::Next(StoreBlobView::Read { blob }),
                StoreBlobView::Read { .. } => if event->Creds_0.len() == 0 {
                    StepView::Finished(Err(empty_list("krb5_rd_cred"@)))
                } else {
                    StepView::Next(
                        StoreBlobView::Initialize { count: event->Creds_0.len() as int },
                    )
                },
                StoreBlobView::Initialize { count } => StepView::Next(
                    StoreBlobView::Store { count, index: 0 },
                ),
                StoreBlobView::Store { count, index } => if index + 1 < count {
                    StepView::Next(StoreBlobView::Store { count, index: index + 1 })
                } else {
                    StepView::Finished(Ok(()))
                },
            },
        }
    }
}

impl StoreBlob {
    #[verifier::type_invariant]
    spec fn inv(self) -> bool {
        self@.wf()
    }

    /// The call that is due.
    pub fn call(&self) -> (call: BlobCall)
        ensures
            call@ == self@.call(),
    {
        match &self.stage {
            StoreStage::Auth { .. } => BlobCall::NewAuth,
            StoreStage::Flags { .. } => BlobCall::SetFlags(0),
            StoreStage::Read { blob } => BlobCall::ReadCreds(slice_to_vec(blob.as_slice())),
            StoreStage::Initialize { .. } => BlobCall::InitializeCache(0),
            StoreStage::Store { index, .. } => BlobCall::StoreCreds(*index),
        }
    }

    /// Goes on with what came of the call.
    pub fn step(self, event: BlobEvent) -> (step: Step<StoreBlob, (), Error>)
        requires
            can_answer(self@.call(), event@),
        ensures
            step@ == self@.next(event@),
            step matches Step::Next(next) ==> next@.wf(),
    {
        proof {
            use_type_invariant(&self);
        }
        let stage = match (self.stage, event) {
            (_, BlobEvent::Failed(error)) => return Step::Finished(Err(error)),
            (StoreStage::Auth { blob }, _) => StoreStage::Flags { blob },
            (StoreStage::Flags { blob }, _) => StoreStage::Read { blob },
            (StoreStage::Read { .. }, BlobEvent::Creds(creds)) => if creds.len() == 0 {
                return Step::Finished(
                    Err(Error::input("krb5_rd_cred", "credential list is empty".to_owned())),
                );
            } else {
                StoreStage::Initialize { count: creds.len() }
            },
            (StoreStage::Initialize { count }, _) => StoreStage::Store { count, index: 0 },
            (StoreStage::Store { count, index }, _) => if index + 1 < count {
                StoreStage::Store { count, index: index + 1 }
            } else {
                return Step::Finished(Ok(()));
            },
            (_, _) => unreached(),
        };
        Step::Next(StoreBlob { stage })
    }
}

/// Stores every credential in a KRB-CRED blob into a cache.
pub fn store(blob: &[u8]) -> (machine: StoreBlob)
    ensures
        machine@ == (StoreBlobView::Auth { blob: blob@ }),
        machine@.wf(),
{
    StoreBlob { stage: StoreStage::Auth { blob: slice_to_vec(blob) } }
}

/// As many successes as there are credentials left to store.
pub open spec fn successes(count: nat) -> Seq<BlobEventView> {
    Seq::new(count, |i: int| BlobEventView::Done)
}

/// The calls that store the credentials from `index` on.
pub open spec fn store_calls(count: int, index: int) -> Seq<BlobCallView> {
    Seq::new((count - index) as nat, |i: int| BlobCallView::StoreCreds(index + i))
}

proof fn lemma_store_run(count: int, index: int)
    requires
        0 <= index < count,
    ensures
        machine::run(
            StoreBlobView::Store { count, index },
            successes((count - index) as nat),
        ) == (
            store_calls(count, index),
            StepView::<StoreBlobView, (), ErrorView>::Finished(Ok(())),
        ),
    decreases count - index,
{
    let state = StoreBlobView::Store { count, index };
    let rest = successes((count - index - 1) as nat);
    assert(successes((count - index) as nat) =~= seq![BlobEventView::Done] + rest);
    machine::lemma_run_first(state, BlobEventView::Done, rest);
    if index + 1 < count {
        lemma_store_run(count, index + 1);
        assert(store_calls(count, index) =~= seq![state.call()] + store_calls(count, index + 1));
    } else {
        assert(store_calls(count, index) =~= seq![state.call()]);
    }
}

/// Storing a blob initializes the cache once, for the client of its first
/// credential, and then stores each credential once, in the order of the blob.
pub proof fn law_store_calls(blob: Seq<u8>, creds: Seq<CredsView>)
    requires
        creds.len() > 0,
    ensures
        machine::run(
            StoreBlobView::Auth { blob },
            seq![
                BlobEventView::Done,
                BlobEventView::Done,
                BlobEventView::Creds(creds),
                BlobEventView::Done,
            ] + successes(creds.len()),
        ) == (
            seq![
                BlobCallView::NewAuth,
                BlobCallView::SetFlags(0),
                BlobCallView::ReadCreds(blob),
                BlobCallView::InitializeCache(0),
            ] + store_calls(creds.len() as int, 0),
            StepView::<StoreBlobView, (), ErrorView>::Finished(Ok(())),
        ),
{
    let count = creds.len() as int;
    let s0 = StoreBlobView::Auth { blob };
    let s1 = StoreBlobView::Flags { blob };
    let s2 = StoreBlobView::Read { blob };
    let s3 = StoreBlobView::Initialize { count };
    let e4 = successes(creds.len());
    let e3 = seq![BlobEventView::Done] + e4;
    let e2 = seq![BlobEventView::Creds(creds)] + e3;
    let e1 = seq![BlobEventView::Done] + e2;
    assert(seq![
        BlobEventView::Done,
        BlobEventView::Done,
        BlobEventView::Creds(creds),
        BlobEventView::Done,
    ] + e4 =~= seq![BlobEventView::Done] + e1);
    lemma_store_run(count, 0);
    machine::lemma_run_first(s3, BlobEventView::Done, e4);
    machine::lemma_run_first(s2, BlobEventView::Creds(creds), e3);
    machine::lemma_run_first(s1, BlobEventView::Done, e2);
    machine::lemma_run_first(s0, BlobEventView::Done, e1);
    let stores = store_calls(count, 0);
    assert(seq![s0.call()] + (seq![s1.call()] + (seq![s2.call()] + (seq![s3.call()] + stores)))
        =~= seq![
        BlobCallView::NewAuth,
        BlobCallView::SetFlags(0),
        BlobCallView::ReadCreds(blob),
        BlobCallView::InitializeCache(0),
    ] + stores);
}

/// Credential metadata extracted from a KRB-CRED blob.
#[derive(Debug, PartialEq, Eq)]
pub struct BlobInfo {
    /// Unparsed client principal.
    pub principal: String,
    /// Earliest credential start time.
    pub start: i64,
    /// Earliest credential end time.
    pub end: i64,
    /// Latest renewal deadline.
    pub renew_till: i64,
    /// Whether the first credential has no network addresses.
    pub addressless: bool,
    /// Whether the blob contains more than one credential.
    pub crossrealm: bool,
}

/// Credential metadata as a value.
pub struct BlobInfoView {
    pub principal: Seq<char>,
    pub start: int,
    pub end: int,
    pub renew_till: int,
    pub addressless: bool,
    pub crossrealm: bool,
}

impl View for BlobInfo {
    type V = BlobInfoView;

    open spec fn view(&self) -> BlobInfoView {
        BlobInfoView {
            principal: self.principal@,
            start: self.start as int,
            end: self.end as int,
            renew_till: self.renew_till as int,
            addressless: self.addressless,
            crossrealm: self.crossrealm,
        }
    }
}

impl Clone for BlobInfo {
    fn clone(&self) -> (copy: Self)
        ensures
            copy == *self,
    {
        BlobInfo {
            principal: self.principal.clone(),
            start: self.start,
            end: self.end,
            renew_till: self.renew_till,
            addressless: self.addressless,
            crossrealm: self.crossrealm,
        }
    }
}

/// The least of some numbers.
pub open spec fn least(values: Seq<int>) -> int
    decreases values.len(),
{
    if values.len() <= 1 {
        values[0]
    } else {
        let before = least(values.drop_last());
        if values.last() < before {
            values.last()
        } else {
            before
        }
    }
}

/// The greatest of some numbers.
pub open spec fn greatest(values: Seq<int>) -> int
    decreases values.len(),
{
    if values.len() <= 1 {
        values[0]
    } else {
        let before = greatest(values.drop_last());
        if values.last() > before {
            values.last()
        } else {
            before
        }
    }
}

/// The start times of credentials.
pub open spec fn start_times(creds: Seq<CredsView>) -> Seq<int> {
    Seq::new(creds.len(), |i: int| creds[i].starttime as int)
}

/// The end times of credentials.
pub open spec fn end_times(creds: Seq<CredsView>) -> Seq<int> {
    Seq::new(creds.len(), |i: int| creds[i].endtime as int)
}

/// The renewal deadlines of credentials.
pub open spec fn renewal_deadlines(creds: Seq<CredsView>) -> Seq<int> {
    Seq::new(creds.len(), |i: int| creds[i].renew_till as int)
}

/// What the credentials of a blob tell.
pub open spec fn blob_info_of(creds: Seq<CredsView>) -> Result<BlobInfoView, ErrorView> {
    if creds.len() == 0 {
        Err(empty_list("krb5_rd_cred"@))
    } else {
        match creds[0].client() {
            Err(error) => Err(error),
            Ok(client) => match client.unparsed() {
                Err(error) => Err(error),
                Ok(principal) => Ok(
                    BlobInfoView {
                        principal,
                        start: least(start_times(creds)),
                        end: least(end_times(creds)),
                        renew_till: greatest(renewal_deadlines(creds)),
                        addressless: !creds[0].addresses,
                        crossrealm: creds.len() > 1,
                    },
                ),
            },
        }
    }
}

/// Sums up the credentials of a blob.
pub fn blob_info(creds: &Vec<Creds>) -> (info: Result<BlobInfo, Error>)
    ensures
        match blob_info_of(creds_views(creds@)) {
            Ok(expected) => info is Ok && info->Ok_0@ == expected,
            Err(error) => info is Err && info->Err_0@ == error,
        },
{
    if creds.len() == 0 {
        return Err(Error::input("krb5_rd_cred", "credential list is empty".to_owned()));
    }
    let ghost views = creds_views(creds@);
    let client = match creds[0].client() {
        Ok(client) => client,
        Err(error) => return Err(error),
    };
    let principal = match client.unparse() {
        Ok(principal) => principal,
        Err(error) => return Err(error),
    };
    let first = creds[0].times();
    let mut start: i64 = first.start;
    let mut end: i64 = first.end;
    let mut renew_till: i64 = first.renew_till;
    let mut at: usize = 1;
    while at < creds.len()
        invariant
            1 <= at <= creds@.len(),
            views == creds_views(creds@),
            start == least(start_times(views).take(at as int)),
            end == least(end_times(views).take(at as int)),
            renew_till == greatest(renewal_deadlines(views).take(at as int)),
        decreases creds@.len() - at,
    {
        let times = creds[at].times();
        proof {
            let next = at + 1;
            assert(views[at as int] == creds@[at as int]@);
            assert(start_times(views).take(next).drop_last() =~= start_times(views).take(at as int));
            assert(end_times(views).take(next).drop_last() =~= end_times(views).take(at as int));
            assert(renewal_deadlines(views).take(next).drop_last() =~= renewal_deadlines(
                views,
            ).take(at as int));
        }
        if times.start < start {
            start = times.start;
        }
        if times.end < end {
            end = times.end;
        }
        if times.renew_till > renew_till {
            renew_till = times.renew_till;
        }
        at = at + 1;
    }
    proof {
        assert(start_times(views).take(at as int) =~= start_times(views));
        assert(end_times(views).take(at as int) =~= end_times(views));
        assert(renewal_deadlines(views).take(at as int) =~= renewal_deadlines(views));
    }
    Ok(
        BlobInfo {
            principal,
            start,
            end,
            renew_till,
            addressless: !creds[0].has_addresses(),
            crossrealm: creds.len() > 1,
        },
    )
}

proof fn lemma_least(values: Seq<int>)
    requires
        values.len() > 0,
    ensures
        values.contains(least(values)),
        forall|i: int| 0 <= i < values.len() ==> least(values) <= #[trigger] values[i],
    decreases values.len(),
{
    if values.len() > 1 {
        let before = values.drop_last();
        lemma_least(before);
        let at = choose|i: int| 0 <= i < before.len() && before[i] == least(before);
        assert(values[at] == least(before));
        assert(values[values.len() - 1] == values.last());
        assert forall|i: int| 0 <= i < values.len() implies least(values) <= #[trigger] values[i] by {
            if i < before.len() {
                assert(before[i] == values[i]);
            }
        }
    } else {
        assert(values[0] == least(values));
    }
}

proof fn lemma_greatest(values: Seq<int>)
    requires
        values.len() > 0,
    ensures
        values.contains(greatest(values)),
        forall|i: int| 0 <= i < values.len() ==> #[trigger] values[i] <= greatest(values),
    decreases values.len(),
{
    if values.len() > 1 {
        let before = values.drop_last();
        lemma_greatest(before);
        let at = choose|i: int| 0 <= i < before.len() && before[i] == greatest(before);
        assert(values[at] == greatest(before));
        assert(values[values.len() - 1] == values.last());
        assert forall|i: int| 0 <= i < values.len() implies #[trigger] values[i] <= greatest(
            values,
        ) by {
            if i < before.len() {
                assert(before[i] == values[i]);
            }
        }
    } else {
        assert(values[0] == greatest(values));
    }
}

/// The times of a blob bound those of every credential in it: none starts or
/// ends earlier, none can be renewed later, and some credential has each time.
pub proof fn law_blob_times(creds: Seq<CredsView>)
    requires
        blob_info_of(creds) is Ok,
    ensures
        ({
            let info = blob_info_of(creds)->Ok_0;
            &&& forall|i: int|
                0 <= i < creds.len() ==> info.start <= (#[trigger] creds[i]).starttime && info.end
                    <= creds[i].endtime && creds[i].renew_till <= info.renew_till
            &&& exists|i: int|
                0 <= i < creds.len() && (#[trigger] creds[i]).starttime == info.start
            &&& exists|i: int| 0 <= i < creds.len() && (#[trigger] creds[i]).endtime == info.end
            &&& exists|i: int|
                0 <= i < creds.len() && (#[trigger] creds[i]).renew_till == info.renew_till
        }),
{
    let starts = start_times(creds);
    let ends = end_times(creds);
    let deadlines = renewal_deadlines(creds);
    lemma_least(starts);
    lemma_least(ends);
    lemma_greatest(deadlines);
    assert forall|i: int| 0 <= i < creds.len() implies least(starts) <= (
    #[trigger] creds[i]).starttime && least(ends) <= creds[i].endtime && creds[i].renew_till
        <= greatest(deadlines) by {
        assert(starts[i] == creds[i].starttime);
        assert(ends[i] == creds[i].endtime);
        assert(deadlines[i] == creds[i].renew_till);
    }
    let s = choose|i: int| 0 <= i < starts.len() && starts[i] == least(starts);
    let e = choose|i: int| 0 <= i < ends.len() && ends[i] == least(ends);
    let d = choose|i: int| 0 <= i < deadlines.len() && deadlines[i] == greatest(deadlines);
    assert(creds[s].starttime == least(starts));
    assert(creds[e].endtime == least(ends));
    assert(creds[d].renew_till == greatest(deadlines));
}

/// Reads what a blob tells.
#[derive(Debug, PartialEq, Eq)]
pub enum ParseBlob {
    /// Making an authentication context.
    Auth {
        /// Blob to read.
        blob: Vec<u8>,
    },
    /// Clearing the flags of the authentication context.
    Flags {
        /// Blob to read.
        blob: Vec<u8>,
    },
    /// Reading the blob.
    Read {
        /// Blob to read.
        blob: Vec<u8>,
    },
}

/// The state of [`ParseBlob`] as a value.
pub enum ParseBlobView {
    Auth { blob: Seq<u8> },
    Flags { blob: Seq<u8> },
    Read { blob: Seq<u8> },
}

impl View for ParseBlob {
    type V = ParseBlobView;

    open spec fn view(&self) -> ParseBlobView {
        match self {
            ParseBlob::Auth { blob } => ParseBlobView::Auth { blob: blob@ },
            ParseBlob::Flags { blob } => ParseBlobView::Flags { blob: blob@ },
            ParseBlob::Read { blob } => ParseBlobView::Read { blob: blob@ },
        }
    }
}

impl Machine for ParseBlobView {
    type Call = BlobCallView;

    type Event = BlobEventView;

    type Value = BlobInfoView;

    type Failure = ErrorView;

    open spec fn call(self) -> BlobCallView {
        match self {
            ParseBlobView::Auth { .. } => BlobCallView::NewAuth,
            ParseBlobView::Flags { .. } => BlobCallView::SetFlags(0),
            ParseBlobView::Read { blob } => BlobCallView::ReadCreds(blob),
        }
    }

    open spec fn next(self, event: BlobEventView) -> StepView<
        ParseBlobView,
        BlobInfoView,
        ErrorView,
    > {
        match event {
            BlobEventView::Failed(error) => StepView::Finished(Err(error)),
            _ => match self {
                ParseBlobView::Auth { blob } => StepView::Next(ParseBlobView::Flags { blob }),
                ParseBlobView::Flags { blob } => StepView::Next(ParseBlobView::Read { blob }),
                ParseBlobView::Read { .. } => StepView::Finished(blob_info_of(event->Creds_0)),
            },
        }
    }
}

impl ParseBlob {
    /// The call that is due.
    pub fn call(&self) -> (call: BlobCall)
        ensures
            call@ == self@.call(),
    {
        match self {
            ParseBlob::Auth { .. } => BlobCall::NewAuth,
            ParseBlob::Flags { .. } => BlobCall::SetFlags(0),
            ParseBlob::Read { blob } => BlobCall::ReadCreds(slice_to_vec(blob.as_slice())),
        }
    }

    /// Goes on with what came of the call.
    pub fn step(self, event: BlobEvent) -> (step: Step<ParseBlob, BlobInfo, Error>)
        requires
            can_answer(self@.call(), event@),
        ensures
            step@ == self@.next(event@),
    {
        match (self, event) {
            (_, BlobEvent::Failed(error)) => Step::Finished(Err(error)),
            (ParseBlob::Auth { blob }, _) => Step::Next(ParseBlob::Flags { blob }),
            (ParseBlob::Flags { blob }, _) => Step::Next(ParseBlob::Read { blob }),
            (_, BlobEvent::Creds(creds)) => Step::Finished(blob_info(&creds)),
            (_, _) => unreached(),
        }
    }
}

/// Parses metadata from a KRB-CRED blob.
pub fn parse(blob: &[u8]) -> (machine: ParseBlob)
    ensures
        machine@ == (ParseBlobView::Auth { blob: blob@ }),
{
    ParseBlob::Auth { blob: slice_to_vec(blob) }
}

/// A blob is read without flags, and its credentials are summed up.
pub proof fn law_parse_calls(blob: Seq<u8>, creds: Seq<CredsView>)
    ensures
        machine::run(
            ParseBlobView::Auth { blob },
            seq![BlobEventView::Done, BlobEventView::Done, BlobEventView::Creds(creds)],
        ) == (
            seq![
                BlobCallView::NewAuth,
                BlobCallView::SetFlags(0),
                BlobCallView::ReadCreds(blob),
            ],
            StepView::<ParseBlobView, BlobInfoView, ErrorView>::Finished(blob_info_of(creds)),
        ),
{
    reveal_with_fuel(machine::run, 4);
}

/// A failed call ends every operation with that failure.
pub proof fn law_failure_ends(
    get: GetBlobView,
    forward: ForwardBlobView,
    store: StoreBlobView,
    parse: ParseBlobView,
    error: ErrorView,
)
    ensures
        get.next(BlobEventView::Failed(error)) == StepView::<
            GetBlobView,
            Seq<u8>,
            ErrorView,
        >::Finished(Err(error)),
        forward.next(BlobEventView::Failed(error)) == StepView::<
            ForwardBlobView,
            Seq<u8>,
            ErrorView,
        >::Finished(Err(error)),
        store.next(BlobEventView::Failed(error)) == StepView::<
            StoreBlobView,
            (),
            ErrorView,
        >::Finished(Err(error)),
        parse.next(BlobEventView::Failed(error)) == StepView::<
            ParseBlobView,
            BlobInfoView,
            ErrorView,
        >::Finished(Err(error)),
{
}

/// The failure of an operation that the library has not reported.
pub open spec fn own_failure(op: Seq<char>, message: Seq<char>) -> ErrorView {
    ErrorView { code: -1i32, message, op }
}

/// The metadata of a blob: its principal is the client of the first credential,
/// it is addressless exactly where the first credential has no addresses, and
/// it crosses realms exactly where it holds more than one credential. There is
/// metadata exactly where there is a credential whose client has a name.
pub proof fn law_blob_metadata(
    creds: Seq<CredsView>,
    client: PrincipalView,
    buffer: Seq<u8>,
    name: Seq<u8>,
)
    ensures
        creds.len() == 0 ==> blob_info_of(creds) == Err::<BlobInfoView, _>(
            own_failure("krb5_rd_cred"@, "credential list is empty"@),
        ),
        creds.len() > 0 && creds[0].client is None ==> blob_info_of(creds) == Err::<BlobInfoView, _>(
            own_failure("krb5_creds.client"@, "credential has no client principal"@),
        ),
        creds.len() > 0 ==> (creds[0].client matches Some(Err(error)) ==> blob_info_of(creds)
            == Err::<BlobInfoView, _>(error)),
        creds.len() > 0 && creds[0].client == Some(Ok::<_, ErrorView>(client)) ==> {
            &&& client.name matches Err(error) ==> blob_info_of(creds) == Err::<BlobInfoView, _>(
                error,
            )
            &&& client.name is Ok ==> (blob_info_of(creds) matches Ok(info) && {
                &&& info.addressless == !creds[0].addresses
                &&& creds.len() == 1 ==> !info.crossrealm
                &&& creds.len() >= 2 ==> info.crossrealm
                &&& client.name == Ok::<_, ErrorView>(buffer) && krb5::holds_string(buffer, name)
                    ==> info.principal == crate::text::lossy_utf8(name)
            })
        },
{
    krb5::law_principal_texts(client, name);
}

/// Another credential behind those of a blob makes it cross realms, and leaves
/// its principal and whether it is addressless as they are. Its times can only
/// widen that of renewal and narrow the others.
pub proof fn law_one_more_credential(creds: Seq<CredsView>, more: CredsView)
    requires
        creds.len() > 0,
        blob_info_of(creds) is Ok,
    ensures
        blob_info_of(creds.push(more)) matches Ok(info) && {
            let before = blob_info_of(creds)->Ok_0;
            &&& info.crossrealm
            &&& info.principal == before.principal
            &&& info.addressless == before.addressless
            &&& info.start == (if more.starttime < before.start {
                more.starttime as int
            } else {
                before.start
            })
            &&& info.end == (if more.endtime < before.end {
                more.endtime as int
            } else {
                before.end
            })
            &&& info.renew_till == (if more.renew_till > before.renew_till {
                more.renew_till as int
            } else {
                before.renew_till
            })
        },
{
    let all = creds.push(more);
    assert(all[0] == creds[0]);
    assert(start_times(all).drop_last() =~= start_times(creds));
    assert(end_times(all).drop_last() =~= end_times(creds));
    assert(renewal_deadlines(all).drop_last() =~= renewal_deadlines(creds));
}

/// A blob is made of the credentials of a cache that are ticket-granting
/// tickets of its realm or of its realm for another one, and of no others: each
/// once, the first one of the realm itself in front and the others in the order
/// of the cache. Without one of the realm itself there is none.
pub proof fn law_serialized_credentials(
    principal: PrincipalView,
    creds: Seq<CredsView>,
    data: Seq<u8>,
)
    ensures
        ({
            let realm = crate::text::lossy_utf8(principal.realm);
            let run = machine::run(
                GetBlobView::Principal,
                seq![
                    BlobEventView::Principal(principal),
                    BlobEventView::Creds(creds),
                    BlobEventView::Done,
                    BlobEventView::Done,
                    BlobEventView::Data(Some(data)),
                ],
            );
            let is_local = |i: int| 0 <= i < creds.len() && creds[i].is_tgt(realm);
            &&& !(exists|i: int| #[trigger] is_local(i)) ==> run == (
                seq![BlobCallView::CachePrincipal, BlobCallView::ListCreds],
                StepView::<GetBlobView, Seq<u8>, ErrorView>::Finished(
                    Err(own_failure("cred_blob::get"@, "no local TGT in cache"@)),
                ),
            )
            &&& (exists|i: int| #[trigger] is_local(i)) ==> {
                &&& run.1 == StepView::<GetBlobView, Seq<u8>, ErrorView>::Finished(Ok(data))
                &&& run.0.len() == 5
                &&& run.0[0] == BlobCallView::CachePrincipal
                &&& run.0[1] == BlobCallView::ListCreds
                &&& run.0[2] == BlobCallView::NewAuth
                &&& run.0[3] == BlobCallView::SetFlags(0)
                &&& run.0[4] matches BlobCallView::MakeCreds(order) && {
                    &&& order.len() > 0
                    &&& is_local(order[0])
                    &&& forall|i: int| #[trigger] is_local(i) ==> order[0] <= i
                    &&& forall|i: int, j: int|
                        1 <= i < j < order.len() ==> #[trigger] order[i] < #[trigger] order[j]
                    &&& forall|i: int| 1 <= i < order.len() ==> #[trigger] order[i] != order[0]
                    &&& forall|at: int|
                        #![trigger order.contains(at)]
                        order.contains(at) <==> 0 <= at < creds.len() && (creds[at].is_tgt(realm)
                            || creds[at].is_crossrealm_tgt(realm))
                }
            }
        }),
{
    let realm = crate::text::lossy_utf8(principal.realm);
    let is_local = |i: int| 0 <= i < creds.len() && creds[i].is_tgt(realm);
    let events = seq![
        BlobEventView::Principal(principal),
        BlobEventView::Creds(creds),
        BlobEventView::Done,
        BlobEventView::Done,
        BlobEventView::Data(Some(data)),
    ];
    law_export_needs_local_tgt(creds, realm);
    if exists|i: int| #[trigger] is_local(i) {
        let i = choose|i: int| #[trigger] is_local(i);
        assert(creds[i].is_tgt(realm));
        law_get_calls(principal, creds, data);
        law_export_order(creds, realm);
        let order = exported(creds, realm)->Ok_0;
        assert(is_local(order[0]));
        assert forall|i: int| #[trigger] is_local(i) implies order[0] <= i by {
            assert(creds[i].is_tgt(realm));
        }
        assert forall|at: int| #[trigger] order.contains(at) <==> 0 <= at < creds.len() && (
        creds[at].is_tgt(realm) || creds[at].is_crossrealm_tgt(realm)) by {
            if order.contains(at) {
                let i = choose|i: int| 0 <= i < order.len() && order[i] == at;
                assert(0 <= order[i] < creds.len());
            }
            if 0 <= at < creds.len() {
                assert(is_exported(creds[at], realm) ==> order.contains(at));
            }
        }
    } else {
        assert forall|i: int| 0 <= i < creds.len() implies !(#[trigger] creds[i]).is_tgt(realm) by {
            assert(!is_local(i));
        }
        assert(exported(creds, realm) is Err);
        assert(exported(creds, realm) == Err::<Seq<int>, _>(
            own_failure("cred_blob::get"@, "no local TGT in cache"@),
        ));
        assert(machine::run(GetBlobView::Principal, events) == (
            seq![BlobCallView::CachePrincipal, BlobCallView::ListCreds],
            StepView::<GetBlobView, Seq<u8>, ErrorView>::Finished(
                Err(own_failure("cred_blob::get"@, "no local TGT in cache"@)),
            ),
        )) by {
            reveal_with_fuel(machine::run, 3);
        }
    }
}

/// A forwarded credential is asked for while the context returns the time (flag
/// 2) and with mutual authentication. Flags are cleared before it is read and
/// before the first credential that was read is serialized.
pub proof fn law_forwarded_credential(
    server: Seq<u8>,
    principal: PrincipalView,
    creds: Seq<CredsView>,
    data: Option<Seq<u8>>,
)
    ensures
        ({
            let run = machine::run(
                ForwardBlobView::Principal { server },
                seq![
                    BlobEventView::Principal(principal),
                    BlobEventView::Done,
                    BlobEventView::Done,
                    BlobEventView::Done,
                    BlobEventView::Done,
                    BlobEventView::Creds(creds),
                    BlobEventView::Done,
                    BlobEventView::Data(data),
                ],
            );
            let first = seq![
                BlobCallView::CachePrincipal,
                BlobCallView::NewAuth,
                BlobCallView::SetFlags(2),
                BlobCallView::Forward { server, options: 536870912 },
                BlobCallView::SetFlags(0),
                BlobCallView::ReadForwarded,
            ];
            &&& creds.len() == 0 ==> run == (
                first,
                StepView::<ForwardBlobView, Seq<u8>, ErrorView>::Finished(
                    Err(own_failure("krb5_mk_1cred"@, "credential list is empty"@)),
                ),
            )
            &&& creds.len() > 0 ==> run == (
                first + seq![BlobCallView::SetFlags(0), BlobCallView::MakeOne(0)],
                StepView::<ForwardBlobView, Seq<u8>, ErrorView>::Finished(
                    match data {
                        Some(bytes) => Ok(bytes),
                        None => Err(
                            own_failure(
                                "krb5_mk_1cred"@,
                                "Kerberos returned a null data pointer"@,
                            ),
                        ),
                    },
                ),
            )
        }),
{
    reveal_with_fuel(machine::run, 9);
}

/// A blob without a credential is not stored and the cache is left alone, and
/// serializing without any data returned is a failure.
pub proof fn law_nothing_to_store_or_return(blob: Seq<u8>, order: Seq<int>)
    ensures
        machine::run(
            StoreBlobView::Auth { blob },
            seq![
                BlobEventView::Done,
                BlobEventView::Done,
                BlobEventView::Creds(Seq::<CredsView>::empty()),
            ],
        ) == (
            seq![
                BlobCallView::NewAuth,
                BlobCallView::SetFlags(0),
                BlobCallView::ReadCreds(blob),
            ],
            StepView::<StoreBlobView, (), ErrorView>::Finished(
                Err(own_failure("krb5_rd_cred"@, "credential list is empty"@)),
            ),
        ),
        (GetBlobView::Make { order }).next(BlobEventView::Data(None)) == StepView::<
            GetBlobView,
            Seq<u8>,
            ErrorView,
        >::Finished(
            Err(own_failure("krb5_mk_ncred"@, "Kerberos returned a null data pointer"@)),
        ),
{
    reveal_with_fuel(machine::run, 4);
}

/// Which events come of which calls: each call can fail and succeeds in one
/// way.
pub proof fn law_events_fit_calls(call: BlobCallView, event: BlobEventView)
    ensures
        can_answer(call, event) <==> match event {
            BlobEventView::Failed(_) => true,
            BlobEventView::Principal(_) => call is CachePrincipal,
            BlobEventView::Creds(_) => call is ListCreds || call is ReadForwarded
                || call is ReadCreds,
            BlobEventView::Data(_) => call is MakeCreds || call is MakeOne,
            BlobEventView::Done => call is NewAuth || call is SetFlags || call is Forward
                || call is InitializeCache || call is StoreCreds,
        },
{
}

} // verus!
