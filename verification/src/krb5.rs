//! The Kerberos values that the client reads and the rules it applies to them.
//! Handles of the Kerberos library stay with the caller: what they hold comes
//! in as plain data.
use crate::text::{self, c_text, signed_decimal, split_once, str_eq, strip_prefix};
use vstd::prelude::*;
use vstd::slice::slice_to_vec;
use vstd::utf8::*;

verus! {

/// Enables sequence numbers on an authentication context.
pub const AUTH_CONTEXT_DO_SEQUENCE: u32 = 4;

/// Returns the time that a message was made at.
pub const AUTH_CONTEXT_RET_TIME: u32 = 2;

/// Asks the server to authenticate itself.
pub const AP_OPTS_MUTUAL_REQUIRED: u32 = 0x2000_0000;

/// Asks for a subsession key.
pub const AP_OPTS_USE_SUBKEY: u32 = 1;

/// The type of an IPv4 address.
pub const ADDRTYPE_INET: i32 = 2;

/// The code with which a walk over a credential cache ends.
pub const KRB5_CC_END: i32 = -1765328242;

/// The application version that authentication announces.
pub const SENDAUTH_VERSION: &'static str = "0.1";

/// A failure returned by MIT Kerberos.
#[derive(Debug, PartialEq, Eq)]
pub struct Error {
    /// MIT Kerberos error code, or `-1` for a non-Kerberos input error.
    pub code: i32,
    /// Human-readable MIT Kerberos error text.
    pub message: String,
    /// Operation that failed.
    pub op: &'static str,
}

/// A Kerberos failure as a value.
pub struct ErrorView {
    pub code: i32,
    pub message: Seq<char>,
    pub op: Seq<char>,
}

impl View for Error {
    type V = ErrorView;

    open spec fn view(&self) -> ErrorView {
        ErrorView { code: self.code, message: self.message@, op: self.op@ }
    }
}

impl Clone for Error {
    fn clone(&self) -> (copy: Self)
        ensures
            copy == *self,
    {
        Error { code: self.code, message: self.message.clone(), op: self.op }
    }
}

/// The failure of an operation on an input of its own.
pub open spec fn input_error(op: Seq<char>, message: Seq<char>) -> ErrorView {
    ErrorView { code: -1i32, message, op }
}

impl ErrorView {
    /// The failure in words.
    pub open spec fn text(self) -> Seq<char> {
        self.op + " failed ("@ + text::int_text(self.code as int) + "): "@ + self.message
    }
}

impl Error {
    /// A failure that Kerberos has not reported.
    pub fn input(op: &'static str, message: String) -> (error: Self)
        ensures
            error@ == input_error(op@, message@),
    {
        Error { code: -1, message, op }
    }

    /// Returns whether this error originated in MIT Kerberos.
    pub fn is_krb5(&self) -> (krb5: bool)
        ensures
            krb5 == (self@.code != -1),
    {
        self.code != -1
    }

    /// The failure in words.
    pub fn text(&self) -> (text: String)
        ensures
            text@ == self@.text(),
    {
        let mut text = self.op.to_owned();
        text.append(" failed (");
        text.append(signed_decimal(self.code).as_str());
        text.append("): ");
        text.append(self.message.as_str());
        text
    }
}

/// The text of an error code: what the library says of it, or the bare code.
pub open spec fn code_text(code: i32, text: Option<Seq<u8>>) -> Seq<char> {
    match text {
        Some(bytes) => text::lossy_utf8(text::before_nul(bytes)),
        None => "Kerberos error "@ + text::int_text(code as int),
    }
}

/// The bytes of an optional buffer.
pub open spec fn optional_bytes(bytes: Option<Vec<u8>>) -> Option<Seq<u8>> {
    match bytes {
        Some(bytes) => Some(bytes@),
        None => None,
    }
}

/// The failure that a nonzero code stands for. `text` is the NUL-terminated
/// message that the library has for the code, if it has one.
pub fn error_for(code: i32, text: &Option<Vec<u8>>, op: &'static str) -> (error: Error)
    requires
        code != 0,
    ensures
        error@ == (ErrorView { code, message: code_text(code, optional_bytes(*text)), op: op@ }),
{
    let message = match text {
        Some(bytes) => c_text(bytes.as_slice()),
        None => {
            let mut message = "Kerberos error ".to_owned();
            message.append(signed_decimal(code).as_str());
            message
        },
    };
    Error { code, message, op }
}

/// Turns the code that a Kerberos call returned into a result.
pub fn check(code: i32, text: &Option<Vec<u8>>, op: &'static str) -> (result: Result<(), Error>)
    ensures
        code == 0 ==> result is Ok,
        code != 0 ==> result is Err && result->Err_0@ == (ErrorView {
            code,
            message: code_text(code, optional_bytes(*text)),
            op: op@,
        }),
{
    if code == 0 {
        Ok(())
    } else {
        Err(error_for(code, text, op))
    }
}

/// The index of the first NUL byte of `bytes`, or its length.
pub open spec fn nul_index(bytes: Seq<u8>) -> int {
    text::before_nul(bytes).len() as int
}

/// A text as a NUL-terminated string. A text with a NUL in it has none.
pub open spec fn c_string_of(value: Seq<char>, op: Seq<char>) -> Result<Seq<u8>, ErrorView> {
    let bytes = encode_utf8(value);
    if nul_index(bytes) < bytes.len() {
        Err(
            input_error(
                op,
                "nul byte found in provided data at position: "@ + text::nat_text(
                    nul_index(bytes) as nat,
                ),
            ),
        )
    } else {
        Ok(bytes.push(0))
    }
}

/// Makes a NUL-terminated string for a Kerberos call.
pub fn c_string(value: &str, op: &'static str) -> (bytes: Result<Vec<u8>, Error>)
    ensures
        match c_string_of(value@, op@) {
            Ok(expected) => bytes is Ok && bytes->Ok_0@ == expected,
            Err(error) => bytes is Err && bytes->Err_0@ == error,
        },
{
    let bytes = value.as_bytes();
    let end: usize = text::nul_position(bytes);
    if end < bytes.len() {
        let mut message = "nul byte found in provided data at position: ".to_owned();
        message.append(text::decimal(end as u64).as_str());
        return Err(Error::input(op, message));
    }
    let mut terminated = slice_to_vec(bytes);
    terminated.push(0);
    Ok(terminated)
}

/// A network address as Kerberos takes it.
#[derive(Debug, PartialEq, Eq)]
pub struct Address {
    /// Address type.
    pub addrtype: i32,
    /// Address octets.
    pub contents: Vec<u8>,
}

/// A network address as a value.
pub struct AddressView {
    pub addrtype: i32,
    pub contents: Seq<u8>,
}

impl View for Address {
    type V = AddressView;

    open spec fn view(&self) -> AddressView {
        AddressView { addrtype: self.addrtype, contents: self.contents@ }
    }
}

/// An IPv4 address.
#[derive(Debug, Clone, Copy, PartialEq, Eq, Structural)]
pub struct Ipv4 {
    pub a: u8,
    pub b: u8,
    pub c: u8,
    pub d: u8,
}

/// The address record of an IPv4 address: its four octets.
pub open spec fn inet_record(address: Ipv4) -> AddressView {
    AddressView {
        addrtype: ADDRTYPE_INET,
        contents: seq![address.a, address.b, address.c, address.d],
    }
}

/// The address record that stands for both ends behind NAT: `dummy` in ASCII.
pub open spec fn dummy_record() -> AddressView {
    AddressView {
        addrtype: ADDRTYPE_INET,
        contents: seq![0x64u8, 0x75u8, 0x6du8, 0x6du8, 0x79u8],
    }
}

/// The address record of an IPv4 address.
pub fn inet_address(address: Ipv4) -> (record: Address)
    ensures
        record@ == inet_record(address),
{
    let mut contents: Vec<u8> = Vec::new();
    contents.push(address.a);
    contents.push(address.b);
    contents.push(address.c);
    contents.push(address.d);
    assert(contents@ =~= seq![address.a, address.b, address.c, address.d]);
    Address { addrtype: ADDRTYPE_INET, contents }
}

/// The address record that stands for both ends behind NAT.
pub fn dummy_address() -> (record: Address)
    ensures
        record@ == dummy_record(),
{
    let mut contents: Vec<u8> = Vec::new();
    contents.push(0x64);
    contents.push(0x75);
    contents.push(0x6d);
    contents.push(0x6d);
    contents.push(0x79);
    assert(contents@ =~= seq![0x64u8, 0x75u8, 0x6du8, 0x6du8, 0x79u8]);
    Address { addrtype: ADDRTYPE_INET, contents }
}

/// The options of mutual authentication with a subsession key.
pub open spec fn mutual_options() -> u32 {
    (AP_OPTS_MUTUAL_REQUIRED + AP_OPTS_USE_SUBKEY) as u32
}

/// The options of mutual authentication with a subsession key.
pub fn sendauth_options() -> (options: u32)
    ensures
        options == mutual_options(),
{
    assert(0x2000_0000u32 | 1u32 == 0x2000_0001u32) by (bit_vector);
    AP_OPTS_MUTUAL_REQUIRED | AP_OPTS_USE_SUBKEY
}

/// A Kerberos principal.
#[derive(Debug, PartialEq, Eq)]
pub struct Principal {
    /// What the library makes of the principal's name: its NUL-terminated
    /// text, or the failure to write it.
    pub name: Result<Vec<u8>, Error>,
    /// The octets of the realm.
    pub realm: Vec<u8>,
}

/// A principal as a value.
pub struct PrincipalView {
    pub name: Result<Seq<u8>, ErrorView>,
    pub realm: Seq<u8>,
}

impl View for Principal {
    type V = PrincipalView;

    open spec fn view(&self) -> PrincipalView {
        PrincipalView {
            name: match self.name {
                Ok(name) => Ok(name@),
                Err(error) => Err(error@),
            },
            realm: self.realm@,
        }
    }
}

impl PrincipalView {
    /// The name of the principal, where it can be written.
    pub open spec fn unparsed(self) -> Result<Seq<char>, ErrorView> {
        match self.name {
            Ok(name) => Ok(text::lossy_utf8(text::before_nul(name))),
            Err(error) => Err(error),
        }
    }

    /// The realm of the principal.
    pub open spec fn realm_text(self) -> Seq<char> {
        text::lossy_utf8(self.realm)
    }
}

impl Principal {
    /// Returns the MIT Kerberos principal name.
    pub fn unparse(&self) -> (name: Result<String, Error>)
        ensures
            match self@.unparsed() {
                Ok(expected) => name is Ok && name->Ok_0@ == expected,
                Err(error) => name is Err && name->Err_0@ == error,
            },
    {
        match &self.name {
            Ok(name) => Ok(c_text(name.as_slice())),
            Err(error) => Err(error.clone()),
        }
    }

    /// Returns the principal realm.
    pub fn realm(&self) -> (realm: Result<String, Error>)
        ensures
            realm is Ok,
            realm->Ok_0@ == self@.realm_text(),
    {
        Ok(text::lossy_text(self.realm.as_slice()))
    }

    /// Copies this principal.
    pub fn copy(&self) -> (copy: Self)
        ensures
            copy@ == self@,
    {
        Principal {
            name: match &self.name {
                Ok(name) => Ok(slice_to_vec(name.as_slice())),
                Err(error) => Err(error.clone()),
            },
            realm: slice_to_vec(self.realm.as_slice()),
        }
    }
}

/// Ticket lifetime fields.
#[derive(Debug, Clone, Copy, PartialEq, Eq, Structural)]
pub struct TicketTimes {
    /// Time at which the ticket was authenticated.
    pub authtime: i64,
    /// Ticket start time.
    pub start: i64,
    /// Ticket expiration time.
    pub end: i64,
    /// Latest time at which the ticket may be renewed.
    pub renew_till: i64,
}

/// A principal of a credential, where it has one: a copy of it, or the failure
/// to copy it.
pub type Holder = Option<Result<Principal, Error>>;

/// The same as a value.
pub type HolderView = Option<Result<PrincipalView, ErrorView>>;

/// The value of a credential's principal.
pub open spec fn holder_view(holder: Holder) -> HolderView {
    match holder {
        None => None,
        Some(Ok(principal)) => Some(Ok(principal@)),
        Some(Err(error)) => Some(Err(error@)),
    }
}

/// A credential copied from a credential cache.
#[derive(Debug, PartialEq, Eq)]
pub struct Creds {
    /// Client principal.
    pub client: Holder,
    /// Server principal.
    pub server: Holder,
    /// Time at which the ticket was authenticated.
    pub authtime: i32,
    /// Ticket start time.
    pub starttime: i32,
    /// Ticket expiration time.
    pub endtime: i32,
    /// Latest time at which the ticket may be renewed.
    pub renew_till: i32,
    /// Ticket flags, as the library holds them.
    pub ticket_flags: i32,
    /// Whether the ticket carries network addresses.
    pub addresses: bool,
}

/// A credential as a value.
pub struct CredsView {
    pub client: HolderView,
    pub server: HolderView,
    pub authtime: i32,
    pub starttime: i32,
    pub endtime: i32,
    pub renew_till: i32,
    pub ticket_flags: i32,
    pub addresses: bool,
}

impl View for Creds {
    type V = CredsView;

    open spec fn view(&self) -> CredsView {
        CredsView {
            client: holder_view(self.client),
            server: holder_view(self.server),
            authtime: self.authtime,
            starttime: self.starttime,
            endtime: self.endtime,
            renew_till: self.renew_till,
            ticket_flags: self.ticket_flags,
            addresses: self.addresses,
        }
    }
}

/// The principal that a credential holds, or why it has none.
pub open spec fn held(holder: HolderView, missing: ErrorView) -> Result<PrincipalView, ErrorView> {
    match holder {
        None => Err(missing),
        Some(held) => held,
    }
}

/// The name of a ticket for the ticket-granting service of a realm.
pub open spec fn tgt_name(target: Seq<char>, realm: Seq<char>) -> Seq<char> {
    "krbtgt/"@ + target + "@"@ + realm
}

impl CredsView {
    pub open spec fn client(self) -> Result<PrincipalView, ErrorView> {
        held(
            self.client,
            input_error("krb5_creds.client"@, "credential has no client principal"@),
        )
    }

    pub open spec fn server(self) -> Result<PrincipalView, ErrorView> {
        held(
            self.server,
            input_error("krb5_creds.server"@, "credential has no server principal"@),
        )
    }

    /// The name of the server principal, where there is one and it can be
    /// written.
    pub open spec fn server_name(self) -> Option<Seq<char>> {
        match self.server() {
            Ok(server) => match server.unparsed() {
                Ok(name) => Some(name),
                Err(_) => None,
            },
            Err(_) => None,
        }
    }

    /// Whether this is the ticket-granting ticket of a realm.
    pub open spec fn is_tgt(self, realm: Seq<char>) -> bool {
        self.server_name() == Some(tgt_name(realm, realm))
    }

    /// Whether this is a ticket that a realm gives for the ticket-granting
    /// service of another one: its name is `krbtgt/`, the other realm up to the
    /// first `@`, and the realm behind that.
    pub open spec fn is_crossrealm_tgt(self, realm: Seq<char>) -> bool {
        match self.server_name() {
            None => false,
            Some(name) => match text::stripped(name, "krbtgt/"@) {
                None => false,
                Some(rest) => {
                    let at = text::index_of_char(rest, '@');
                    at < rest.len() && rest.skip(at + 1) == realm && rest.take(at) != realm
                },
            },
        }
    }
}

impl Creds {
    /// Returns the client principal.
    pub fn client(&self) -> (principal: Result<Principal, Error>)
        ensures
            match self@.client() {
                Ok(expected) => principal is Ok && principal->Ok_0@ == expected,
                Err(error) => principal is Err && principal->Err_0@ == error,
            },
    {
        match &self.client {
            None => Err(
                Error::input("krb5_creds.client", "credential has no client principal".to_owned()),
            ),
            Some(Ok(principal)) => Ok(principal.copy()),
            Some(Err(error)) => Err(error.clone()),
        }
    }

    /// Returns the server principal.
    pub fn server(&self) -> (principal: Result<Principal, Error>)
        ensures
            match self@.server() {
                Ok(expected) => principal is Ok && principal->Ok_0@ == expected,
                Err(error) => principal is Err && principal->Err_0@ == error,
            },
    {
        match &self.server {
            None => Err(
                Error::input("krb5_creds.server", "credential has no server principal".to_owned()),
            ),
            Some(Ok(principal)) => Ok(principal.copy()),
            Some(Err(error)) => Err(error.clone()),
        }
    }

    /// Returns ticket lifetime fields.
    pub fn times(&self) -> (times: TicketTimes)
        ensures
            times.authtime == self@.authtime,
            times.start == self@.starttime,
            times.end == self@.endtime,
            times.renew_till == self@.renew_till,
    {
        TicketTimes {
            authtime: self.authtime as i64,
            start: self.starttime as i64,
            end: self.endtime as i64,
            renew_till: self.renew_till as i64,
        }
    }

    /// Returns ticket flags.
    pub fn flags(&self) -> (flags: u32)
        ensures
            self@.ticket_flags >= 0 ==> flags == self@.ticket_flags,
            self@.ticket_flags < 0 ==> flags == self@.ticket_flags + 0x1_0000_0000,
    {
        if self.ticket_flags >= 0 {
            self.ticket_flags as u32
        } else {
            (self.ticket_flags as i64 + 0x1_0000_0000) as u32
        }
    }

    /// Returns whether the ticket carries network addresses.
    pub fn has_addresses(&self) -> (carries: bool)
        ensures
            carries == self@.addresses,
    {
        self.addresses
    }

    fn server_name(&self) -> (name: Option<String>)
        ensures
            match self@.server_name() {
                Some(expected) => name is Some && name->Some_0@ == expected,
                None => name is None,
            },
    {
        match self.server() {
            Ok(server) => match server.unparse() {
                Ok(name) => Some(name),
                Err(_) => None,
            },
            Err(_) => None,
        }
    }

    /// Returns whether this is `krbtgt/realm@realm`.
    pub fn is_tgt(&self, realm: &str) -> (found: bool)
        ensures
            found == self@.is_tgt(realm@),
    {
        match self.server_name() {
            Some(name) => {
                let mut expected = "krbtgt/".to_owned();
                expected.append(realm);
                expected.append("@");
                expected.append(realm);
                str_eq(name.as_str(), expected.as_str())
            },
            None => false,
        }
    }

    /// Returns whether this is a ticket from `realm` for the ticket-granting
    /// service of another realm.
    pub fn is_crossrealm_tgt(&self, realm: &str) -> (found: bool)
        ensures
            found == self@.is_crossrealm_tgt(realm@),
    {
        match self.server_name() {
            Some(name) => match strip_prefix(name.as_str(), "krbtgt/") {
                Some(rest) => match split_once(rest, '@') {
                    Some((target, service)) => str_eq(service, realm) && !str_eq(target, realm),
                    None => false,
                },
                None => false,
            },
            None => false,
        }
    }
}

/// The state of a walk over a credential cache. The cursor of the library is
/// open until the walk has finished.
#[derive(Debug, PartialEq, Eq)]
pub struct CredsIter {
    finished: bool,
}

impl View for CredsIter {
    type V = bool;

    /// Whether the walk has finished.
    closed spec fn view(&self) -> bool {
        self.finished
    }
}

impl CredsIter {
    /// A walk whose cursor was just opened.
    pub fn new() -> (iter: Self)
        ensures
            !iter@,
    {
        CredsIter { finished: false }
    }

    /// Whether the walk has finished: there is nothing more to fetch.
    pub fn is_finished(&self) -> (finished: bool)
        ensures
            finished == self@,
    {
        self.finished
    }

    /// Takes what the library fetched next. The walk goes on after a
    /// credential, and finishes at the end of the cache and at a failure. Where
    /// it finishes the cursor is to be closed. A finished walk gives nothing.
    pub fn next(&mut self, code: i32, text: &Option<Vec<u8>>, creds: Creds) -> (item: Option<
        Result<Creds, Error>,
    >)
        ensures
            final(self)@ == (old(self)@ || code != 0),
            old(self)@ || code == KRB5_CC_END ==> item is None,
            !old(self)@ && code == 0 ==> item == Some(Ok::<_, Error>(creds)),
            !old(self)@ && code != KRB5_CC_END && code != 0 ==> item is Some
                && item->Some_0 is Err && item->Some_0->Err_0@ == (ErrorView {
                code,
                message: code_text(code, optional_bytes(*text)),
                op: "krb5_cc_next_cred"@,
            }),
    {
        if self.finished {
            return None;
        }
        if code == KRB5_CC_END {
            self.finished = true;
            return None;
        }
        if code != 0 {
            self.finished = true;
            return Some(Err(error_for(code, text, "krb5_cc_next_cred")));
        }
        Some(Ok(creds))
    }

    /// Finishes the walk. The cursor is to be closed if the walk was still
    /// going on.
    pub fn finish(&mut self) -> (close: bool)
        ensures
            close == !old(self)@,
            final(self)@,
    {
        let close = !self.finished;
        self.finished = true;
        close
    }
}

/// The type of a cache: the text of a NUL-terminated buffer, or nothing where
/// that is not UTF-8.
pub open spec fn cache_type(buffer: Seq<u8>) -> Seq<char> {
    if valid_utf8(text::before_nul(buffer)) {
        decode_utf8(text::before_nul(buffer))
    } else {
        Seq::empty()
    }
}

/// Returns the type of a cache.
pub fn ccache_type(buffer: &[u8]) -> (name: String)
    ensures
        name@ == cache_type(buffer@),
{
    let end: usize = text::nul_position(buffer);
    assert(buffer@.subrange(0, end as int) =~= buffer@.take(end as int));
    match text::utf8_text(vstd::slice::slice_subrange(buffer, 0, end)) {
        Ok(name) => name,
        Err(_) => {
            proof {
                reveal_strlit("");
                assert(""@ =~= Seq::empty());
            }
            "".to_owned()
        },
    }
}

/// Two steps towards a new unique cache: the type it gets, and its creation.
#[derive(Debug, PartialEq, Eq)]
pub enum UniqueCache {
    /// Open the default cache, whose type the new one gets.
    OpenDefault,
    /// Create a cache of the type that a NUL-terminated string names.
    Create(Vec<u8>),
    /// There will be no cache.
    Failed(Error),
}

/// Whether a step creates a cache of the type `name`, which must be free of
/// NULs.
pub open spec fn creates_type(step: UniqueCache, name: Seq<char>) -> bool {
    match c_string_of(name, "krb5_cc_new_unique"@) {
        Ok(expected) => step matches UniqueCache::Create(bytes) && bytes@ == expected,
        Err(expected) => step matches UniqueCache::Failed(error) && error@ == expected,
    }
}

fn create_type(name: &str) -> (step: UniqueCache)
    ensures
        creates_type(step, name@),
{
    match c_string(name, "krb5_cc_new_unique") {
        Ok(bytes) => UniqueCache::Create(bytes),
        Err(error) => UniqueCache::Failed(error),
    }
}

/// Begins the creation of a unique credential cache, optionally of a given
/// type.
pub fn new_unique_ccache(cache_type: Option<&str>) -> (step: UniqueCache)
    ensures
        match cache_type {
            Some(name) => creates_type(step, name@),
            None => step == UniqueCache::OpenDefault,
        },
{
    match cache_type {
        Some(name) => create_type(name),
        None => UniqueCache::OpenDefault,
    }
}

/// Goes on with the creation of a unique cache, after the default cache was
/// opened and its type was read.
pub fn unique_ccache_like(default_type: Result<Vec<u8>, Error>) -> (step: UniqueCache)
    ensures
        match default_type {
            Ok(buffer) => creates_type(step, cache_type(buffer@)),
            Err(error) => step == UniqueCache::Failed(error),
        },
{
    match default_type {
        Ok(buffer) => create_type(ccache_type(buffer.as_slice()).as_str()),
        Err(error) => UniqueCache::Failed(error),
    }
}

/// A step towards making a cache the default one of its collection.
#[derive(Debug, PartialEq, Eq)]
pub enum SwitchCache {
    /// Ask whether caches of the type that a NUL-terminated string names have
    /// collections.
    Ask(Vec<u8>),
    /// Switch the default cache.
    Switch,
    /// Nothing is left to do: whether the default cache was switched.
    Finished(Result<bool, Error>),
}

/// Begins to switch the default cache to one of the type in `buffer`.
pub fn switch_to(buffer: &[u8]) -> (step: SwitchCache)
    ensures
        match c_string_of(cache_type(buffer@), "krb5_cc_support_switch"@) {
            Ok(expected) => step matches SwitchCache::Ask(bytes) && bytes@ == expected,
            Err(expected) => step matches SwitchCache::Finished(Err(error)) && error@ == expected,
        },
{
    match c_string(ccache_type(buffer).as_str(), "krb5_cc_support_switch") {
        Ok(bytes) => SwitchCache::Ask(bytes),
        Err(error) => SwitchCache::Finished(Err(error)),
    }
}

/// Goes on after the question whether the cache type has collections.
pub fn switch_supported(supported: i32) -> (step: SwitchCache)
    ensures
        supported == 0 ==> step == SwitchCache::Finished(Ok::<bool, Error>(false)),
        supported != 0 ==> step == SwitchCache::Switch,
{
    if supported == 0 {
        SwitchCache::Finished(Ok(false))
    } else {
        SwitchCache::Switch
    }
}

/// Ends with the code that the switch returned.
pub fn switched(code: i32, text: &Option<Vec<u8>>) -> (switched: Result<bool, Error>)
    ensures
        code == 0 ==> switched == Ok::<bool, Error>(true),
        code != 0 ==> switched is Err && switched->Err_0@ == (ErrorView {
            code,
            message: code_text(code, optional_bytes(*text)),
            op: "krb5_cc_switch"@,
        }),
{
    match check(code, text, "krb5_cc_switch") {
        Ok(()) => Ok(true),
        Err(error) => Err(error),
    }
}

/// No credential is both the ticket-granting ticket of a realm and a
/// cross-realm one.
pub proof fn law_tgt_is_not_crossrealm(creds: CredsView, realm: Seq<char>)
    ensures
        !(creds.is_tgt(realm) && creds.is_crossrealm_tgt(realm)),
{
    if creds.is_tgt(realm) {
        law_crossrealm_name(creds, realm, realm);
    }
}

/// A ticket that a realm gives for the ticket-granting service of a target is a
/// cross-realm one exactly where the target is another realm. A target whose
/// name holds an `@` is none.
pub proof fn law_crossrealm_name(creds: CredsView, target: Seq<char>, realm: Seq<char>)
    requires
        creds.server_name() == Some(tgt_name(target, realm)),
    ensures
        creds.is_crossrealm_tgt(realm) == (target != realm && !target.contains('@')),
{
    reveal_strlit("@");
    let name = tgt_name(target, realm);
    let head = "krbtgt/"@;
    let rest = name.skip(head.len() as int);
    assert(name.take(head.len() as int) =~= head);
    assert(rest =~= target + "@"@ + realm);
    let at = text::index_of_char(rest, '@');
    text::lemma_index_of_char_within(rest, '@');
    assert(rest[target.len() as int] == '@');
    if at == target.len() {
        assert(rest.take(at) =~= target);
        assert(rest.skip(at + 1) =~= realm);
        if target.contains('@') {
            let i = choose|i: int| 0 <= i < target.len() && target[i] == '@';
            assert(rest[i] == '@');
        }
    } else {
        assert(target[at] == rest[at]);
        assert(target.contains('@'));
        assert(rest.skip(at + 1).len() > realm.len());
    }
}

/// A buffer that holds some bytes without a NUL: those bytes alone, or with a
/// NUL and anything behind them.
pub open spec fn holds_string(buffer: Seq<u8>, bytes: Seq<u8>) -> bool {
    &&& !bytes.contains(0u8)
    &&& buffer == bytes || exists|rest: Seq<u8>| buffer == #[trigger] (bytes.push(0u8) + rest)
}

/// What stands before the first NUL of a buffer is the string that it holds.
pub proof fn lemma_holds_string(buffer: Seq<u8>, bytes: Seq<u8>)
    requires
        holds_string(buffer, bytes),
    ensures
        text::before_nul(buffer) == bytes,
{
    if buffer != bytes {
        let rest = choose|rest: Seq<u8>| buffer == #[trigger] (bytes.push(0u8) + rest);
        assert(buffer == bytes.push(0u8) + rest);
    }
    assert forall|i: int| 0 <= i < bytes.len() implies buffer[i] != 0 by {
        assert(bytes.contains(bytes[i]));
    }
    text::lemma_before_nul(buffer, bytes.len() as int);
    assert(buffer.take(bytes.len() as int) =~= bytes);
}

/// What the library says of a code is the text before the NUL of its message.
/// Where it says nothing the code itself is named, and a failure that it did
/// not report has the code -1.
pub proof fn law_words_for_codes(code: i32, buffer: Seq<u8>, bytes: Seq<u8>, op: Seq<char>)
    requires
        holds_string(buffer, bytes),
    ensures
        code_text(code, Some(buffer)) == text::lossy_utf8(bytes),
        code_text(code, None) == "Kerberos error "@ + text::int_text(code as int),
        input_error(op, text::lossy_utf8(bytes)) == (ErrorView {
            code: -1i32,
            message: text::lossy_utf8(bytes),
            op,
        }),
{
    lemma_holds_string(buffer, bytes);
}

/// A failure in words names the operation, the code and the message.
pub proof fn law_words_for_failures(error: ErrorView)
    ensures
        error.text() == error.op + " failed ("@ + text::int_text(error.code as int) + "): "@
            + error.message,
{
}

/// A text becomes a string for the library by a NUL behind its bytes. A text
/// that holds a NUL itself is refused, and the position of the first one is
/// named.
pub proof fn law_strings_for_the_library(value: Seq<char>, op: Seq<char>, at: int)
    ensures
        !encode_utf8(value).contains(0u8) ==> c_string_of(value, op) == Ok::<_, ErrorView>(
            encode_utf8(value).push(0u8),
        ),
        0 <= at < encode_utf8(value).len() && encode_utf8(value)[at] == 0 && !encode_utf8(
            value,
        ).take(at).contains(0u8) ==> c_string_of(value, op) == Err::<Seq<u8>, _>(
            ErrorView {
                code: -1i32,
                message: "nul byte found in provided data at position: "@ + text::nat_text(
                    at as nat,
                ),
                op,
            },
        ),
{
    let bytes = encode_utf8(value);
    if !bytes.contains(0u8) {
        lemma_holds_string(bytes, bytes);
    }
    if 0 <= at < bytes.len() && bytes[at] == 0 && !bytes.take(at).contains(0u8) {
        let front = bytes.take(at);
        assert(bytes =~= front.push(0u8) + bytes.skip(at + 1));
        lemma_holds_string(bytes, front);
    }
}

/// The name of a principal is the text before the NUL, or the failure to write
/// it, and its realm is all of its octets.
pub proof fn law_principal_texts(principal: PrincipalView, bytes: Seq<u8>)
    ensures
        principal.name matches Ok(buffer) && holds_string(buffer, bytes) ==> principal.unparsed()
            == Ok::<_, ErrorView>(text::lossy_utf8(bytes)),
        principal.name matches Err(error) ==> principal.unparsed() == Err::<Seq<char>, _>(error),
        principal.realm_text() == text::lossy_utf8(principal.realm),
{
    if let Ok(buffer) = principal.name {
        if holds_string(buffer, bytes) {
            lemma_holds_string(buffer, bytes);
        }
    }
}

/// A credential gives out the principals that it holds, client for client and
/// server for server, and says of one that is missing which one it is.
pub proof fn law_principals_of_credentials(creds: CredsView, principal: PrincipalView)
    ensures
        creds.client == Some(Ok::<_, ErrorView>(principal)) ==> creds.client() == Ok::<_, ErrorView>(
            principal,
        ),
        creds.server == Some(Ok::<_, ErrorView>(principal)) ==> creds.server() == Ok::<_, ErrorView>(
            principal,
        ),
        creds.client matches Some(Err(error)) ==> creds.client() == Err::<PrincipalView, _>(error),
        creds.server matches Some(Err(error)) ==> creds.server() == Err::<PrincipalView, _>(error),
        creds.client is None ==> creds.client() == Err::<PrincipalView, _>(
            ErrorView {
                code: -1i32,
                message: "credential has no client principal"@,
                op: "krb5_creds.client"@,
            },
        ),
        creds.server is None ==> creds.server() == Err::<PrincipalView, _>(
            ErrorView {
                code: -1i32,
                message: "credential has no server principal"@,
                op: "krb5_creds.server"@,
            },
        ),
{
}

/// Whether a name is that of a ticket for the ticket-granting service of
/// another realm: `krbtgt/`, the other realm, `@` and the realm.
pub open spec fn names_other_realm(name: Seq<char>, realm: Seq<char>) -> bool {
    exists|target: Seq<char>|
        name == #[trigger] ("krbtgt/"@ + target + "@"@ + realm) && target != realm
            && !target.contains('@')
}

/// Ticket-granting tickets are told by the name of their server alone: that of
/// a realm is `krbtgt/REALM@REALM`, and one for another realm is
/// `krbtgt/OTHER@REALM`. A credential whose server has no name is neither.
pub proof fn law_tickets_by_name(
    creds: CredsView,
    server: PrincipalView,
    buffer: Seq<u8>,
    bytes: Seq<u8>,
    realm: Seq<char>,
)
    ensures
        creds.server == Some(Ok::<_, ErrorView>(server)) && server.name == Ok::<_, ErrorView>(
            buffer,
        ) && holds_string(buffer, bytes) ==> {
            &&& creds.is_tgt(realm) <==> text::lossy_utf8(bytes) == "krbtgt/"@ + realm + "@"@
                + realm
            &&& creds.is_crossrealm_tgt(realm) <==> names_other_realm(
                text::lossy_utf8(bytes),
                realm,
            )
        },
        creds.server is None || creds.server->Some_0 is Err || creds.server->Some_0->Ok_0.name is Err
            ==> !creds.is_tgt(realm) && !creds.is_crossrealm_tgt(realm),
{
    if creds.server == Some(Ok::<_, ErrorView>(server)) && server.name == Ok::<_, ErrorView>(buffer)
        && holds_string(buffer, bytes) {
        lemma_holds_string(buffer, bytes);
        let name = text::lossy_utf8(bytes);
        assert(creds.server_name() == Some(name));
        if names_other_realm(name, realm) {
            let target = choose|target: Seq<char>|
                name == #[trigger] ("krbtgt/"@ + target + "@"@ + realm) && target != realm
                    && !target.contains('@');
            law_crossrealm_name(creds, target, realm);
        }
        if creds.is_crossrealm_tgt(realm) {
            reveal_strlit("@");
            let head = "krbtgt/"@;
            let rest = name.skip(head.len() as int);
            let at = text::index_of_char(rest, '@');
            text::lemma_index_of_char_within(rest, '@');
            let target = rest.take(at);
            assert(rest =~= target + "@"@ + rest.skip(at + 1));
            assert(name =~= name.take(head.len() as int) + rest);
            assert(name =~= head + target + "@"@ + realm);
            assert(!target.contains('@'));
        }
    }
}

/// The type of a cache is the text before the NUL of the buffer it stands in,
/// and empty where that is not UTF-8.
pub proof fn law_cache_types(buffer: Seq<u8>, bytes: Seq<u8>, name: Seq<char>)
    requires
        holds_string(buffer, bytes),
    ensures
        bytes == encode_utf8(name) ==> cache_type(buffer) == name,
        !valid_utf8(bytes) ==> cache_type(buffer).len() == 0,
{
    lemma_holds_string(buffer, bytes);
    encode_utf8_valid_utf8(name);
    encode_utf8_decode_utf8(name);
}

/// A new cache is created of the type that was named, with a NUL behind it, and
/// a type with a NUL in it fails with the name of the call.
pub proof fn law_new_caches(step: UniqueCache, name: Seq<char>)
    requires
        creates_type(step, name),
    ensures
        !encode_utf8(name).contains(0u8) ==> (step matches UniqueCache::Create(bytes) && bytes@
            == encode_utf8(name).push(0u8)),
        encode_utf8(name).contains(0u8) ==> (step matches UniqueCache::Failed(error) && error@.code
            == -1 && error@.op == "krb5_cc_new_unique"@),
{
    let bytes = encode_utf8(name);
    law_strings_for_the_library(name, "krb5_cc_new_unique"@, 0);
    if bytes.contains(0u8) && text::before_nul(bytes).len() >= bytes.len() {
        let i = choose|i: int| 0 <= i < bytes.len() && bytes[i] == 0u8;
        lemma_before_first_nul(bytes, i);
    }
}

proof fn lemma_before_first_nul(bytes: Seq<u8>, at: int)
    requires
        0 <= at < bytes.len(),
        bytes[at] == 0,
    ensures
        text::before_nul(bytes).len() <= at,
    decreases at,
{
    if at > 0 && bytes[0] != 0 {
        lemma_before_first_nul(bytes.skip(1), at - 1);
    }
}

/// The numbers that the client and the Kerberos library agree on.
pub proof fn law_agreed_numbers()
    ensures
        AUTH_CONTEXT_RET_TIME == 2,
        AUTH_CONTEXT_DO_SEQUENCE == 4,
        AP_OPTS_USE_SUBKEY == 1,
        AP_OPTS_MUTUAL_REQUIRED == 536870912,
        mutual_options() == 536870913,
        ADDRTYPE_INET == 2,
        KRB5_CC_END == -1765328242,
{
}

} // verus!
