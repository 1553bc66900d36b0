//! The AUKS client configuration.
use crate::grammar::{self, parse_blocks, Settings};
use crate::ordmap::{self, OrdMap};
use crate::text::{self, eq_ignore_case, parse_u32};
use vstd::prelude::*;

verus! {

/// A span of time.
#[derive(Debug, Clone, Copy, PartialEq, Eq, Structural)]
pub struct Duration {
    /// Whole seconds.
    pub secs: u64,
    /// Nanoseconds beyond the whole seconds.
    pub nanos: u32,
}

impl Duration {
    /// A number of whole seconds.
    pub fn from_secs(secs: u64) -> (duration: Self)
        ensures
            duration == (Duration { secs, nanos: 0 }),
    {
        Duration { secs, nanos: 0 }
    }
}

/// A parsed AUKS configuration.
#[derive(Debug, PartialEq, Eq)]
pub struct AuksConfig {
    /// Client and server settings.
    pub client: ClientConfig,
    /// All parsed blocks, including blocks not used by the client yet.
    pub blocks: OrdMap<OrdMap<String>>,
}

/// A configuration as a value.
pub struct AuksConfigView {
    pub client: ClientConfigView,
    pub blocks: Map<Seq<char>, Settings>,
}

impl View for AuksConfig {
    type V = AuksConfigView;

    open spec fn view(&self) -> AuksConfigView {
        AuksConfigView { client: self.client@, blocks: grammar::blocks_view(self.blocks) }
    }
}

/// Client connection settings.
#[derive(Debug, PartialEq, Eq)]
pub struct ClientConfig {
    /// Primary daemon endpoint.
    pub primary: Server,
    /// Optional secondary daemon endpoint.
    pub secondary: Option<Server>,
    /// Optional cross-realm target.
    pub cross_realm: Option<String>,
    /// Whether NAT traversal is enabled.
    pub nat: bool,
    /// Number of connection attempts.
    pub retries: u32,
    /// Connection timeout.
    pub timeout: Duration,
    /// Delay between retries.
    pub delay: Duration,
    /// Optional helper script path.
    pub helper_script: Option<String>,
}

/// Client connection settings as a value.
pub struct ClientConfigView {
    pub primary: ServerView,
    pub secondary: Option<ServerView>,
    pub cross_realm: Option<Seq<char>>,
    pub nat: bool,
    pub retries: u32,
    pub timeout: Duration,
    pub delay: Duration,
    pub helper_script: Option<Seq<char>>,
}

/// The text of an optional string.
pub open spec fn optional_text(text: Option<String>) -> Option<Seq<char>> {
    match text {
        Some(text) => Some(text@),
        None => None,
    }
}

/// The value of an optional endpoint.
pub open spec fn optional_server(server: Option<Server>) -> Option<ServerView> {
    match server {
        Some(server) => Some(server@),
        None => None,
    }
}

impl View for ClientConfig {
    type V = ClientConfigView;

    open spec fn view(&self) -> ClientConfigView {
        ClientConfigView {
            primary: self.primary@,
            secondary: optional_server(self.secondary),
            cross_realm: optional_text(self.cross_realm),
            nat: self.nat,
            retries: self.retries,
            timeout: self.timeout,
            delay: self.delay,
            helper_script: optional_text(self.helper_script),
        }
    }
}

/// A daemon endpoint.
#[derive(Debug, PartialEq, Eq)]
pub struct Server {
    /// Configured host name.
    pub host: String,
    /// Address used for the connection.
    pub address: String,
    /// TCP port.
    pub port: String,
    /// Kerberos service principal.
    pub principal: String,
}

/// A daemon endpoint as a value.
pub struct ServerView {
    pub host: Seq<char>,
    pub address: Seq<char>,
    pub port: Seq<char>,
    pub principal: Seq<char>,
}

impl View for Server {
    type V = ServerView;

    open spec fn view(&self) -> ServerView {
        ServerView {
            host: self.host@,
            address: self.address@,
            port: self.port@,
            principal: self.principal@,
        }
    }
}

impl Clone for Server {
    fn clone(&self) -> (copy: Self)
        ensures
            copy@ == self@,
    {
        Server {
            host: self.host.clone(),
            address: self.address.clone(),
            port: self.port.clone(),
            principal: self.principal.clone(),
        }
    }
}

impl Clone for ClientConfig {
    fn clone(&self) -> (copy: Self)
        ensures
            copy@ == self@,
    {
        ClientConfig {
            primary: self.primary.clone(),
            secondary: match &self.secondary {
                Some(server) => Some(server.clone()),
                None => None,
            },
            cross_realm: copy_text(&self.cross_realm),
            nat: self.nat,
            retries: self.retries,
            timeout: self.timeout,
            delay: self.delay,
            helper_script: copy_text(&self.helper_script),
        }
    }
}

impl Clone for AuksConfig {
    fn clone(&self) -> (copy: Self)
        ensures
            copy@ == self@,
    {
        let blocks = self.blocks.clone();
        proof {
            assert forall|name: Seq<char>| self.blocks@.contains_key(name) implies
                grammar::settings_view(blocks@[name]) == grammar::settings_view(self.blocks@[name]) by {
                assert(cloned::<OrdMap<String>>(self.blocks@[name], blocks@[name]));
                assert(grammar::settings_view(blocks@[name]) =~= grammar::settings_view(
                    self.blocks@[name],
                ));
            }
            assert(grammar::blocks_view(blocks) =~= grammar::blocks_view(self.blocks));
        }
        AuksConfig { client: self.client.clone(), blocks }
    }
}

/// Copies an optional string.
pub(crate) fn copy_text(text: &Option<String>) -> (copy: Option<String>)
    ensures
        copy == *text,
{
    match text {
        Some(text) => Some(text.clone()),
        None => None,
    }
}

/// Configuration parsing failure.
#[derive(Debug, PartialEq, Eq)]
pub enum ConfigError {
    /// The configuration syntax is invalid.
    Syntax {
        /// Byte offset where parsing failed.
        offset: usize,
        /// Description of the syntax error.
        message: String,
    },
    /// A numeric value is invalid.
    InvalidNumber {
        /// Configuration field name.
        field: &'static str,
        /// Invalid field value.
        value: String,
    },
    /// The file could not be read.
    Io(String),
}

/// A configuration failure as a value.
pub enum ConfigErrorView {
    Syntax { offset: int, message: Seq<char> },
    InvalidNumber { field: Seq<char>, value: Seq<char> },
    Io(Seq<char>),
}

impl View for ConfigError {
    type V = ConfigErrorView;

    open spec fn view(&self) -> ConfigErrorView {
        match self {
            ConfigError::Syntax { offset, message } => ConfigErrorView::Syntax {
                offset: *offset as int,
                message: message@,
            },
            ConfigError::InvalidNumber { field, value } => ConfigErrorView::InvalidNumber {
                field: field@,
                value: value@,
            },
            ConfigError::Io(message) => ConfigErrorView::Io(message@),
        }
    }
}

/// The settings of a block; none where the block is missing.
pub open spec fn block_settings(blocks: Map<Seq<char>, Settings>, name: Seq<char>) -> Settings {
    if blocks.contains_key(name) {
        blocks[name]
    } else {
        Map::empty()
    }
}

/// Whether two spellings are of one key: keys are equal up to case.
pub open spec fn same_key(left: Seq<char>, right: Seq<char>) -> bool {
    text::equal_up_to_case(left, right)
}

/// Whether a key is there, in whatever spelling.
pub open spec fn has_key(settings: Settings, key: Seq<char>) -> bool {
    exists|spelling: Seq<char>| #[trigger]
        settings.contains_key(spelling) && same_key(spelling, key)
}

/// Whether a key is read under a spelling: the exact one if it is there, else
/// the first one in key order.
pub open spec fn reads_spelling(settings: Settings, key: Seq<char>, spelling: Seq<char>) -> bool {
    &&& settings.contains_key(spelling)
    &&& same_key(spelling, key)
    &&& spelling == key || {
        &&& !settings.contains_key(key)
        &&& forall|other: Seq<char>| #[trigger]
            settings.contains_key(other) && same_key(other, key) && other != spelling
                ==> ordmap::key_before(spelling, other)
    }
}

/// The value of a setting, whatever the case of its key.
pub open spec fn setting(settings: Settings, key: Seq<char>) -> Option<Seq<char>> {
    if has_key(settings, key) {
        Some(settings[choose|spelling: Seq<char>| reads_spelling(settings, key, spelling)])
    } else {
        None
    }
}

/// A key is read under one spelling at most.
pub proof fn lemma_one_spelling(settings: Settings, key: Seq<char>, spelling: Seq<char>)
    requires
        reads_spelling(settings, key, spelling),
    ensures
        setting(settings, key) == Some(settings[spelling]),
{
    let chosen = choose|spelling: Seq<char>| reads_spelling(settings, key, spelling);
    assert(settings.contains_key(spelling));
    if chosen != spelling {
        ordmap::law_key_order_is_total(spelling, chosen, spelling);
    }
}

/// The value of a setting, or `fallback` where it is missing.
pub open spec fn setting_or(
    settings: Settings,
    key: Seq<char>,
    fallback: Seq<char>,
) -> Seq<char> {
    match setting(settings, key) {
        Some(value) => value,
        None => fallback,
    }
}

/// The value of a setting that is there and not empty.
pub open spec fn filled_setting(settings: Settings, key: Seq<char>) -> Option<Seq<char>> {
    match setting(settings, key) {
        Some(value) => if value.len() > 0 {
            Some(value)
        } else {
            None
        },
        None => None,
    }
}

/// The endpoint whose settings begin with `prefix`.
pub open spec fn server_settings(
    settings: Settings,
    prefix: Seq<char>,
    optional: bool,
) -> ServerView {
    let host = setting_or(
        settings,
        prefix + "Host"@,
        if optional {
            Seq::empty()
        } else {
            "localhost"@
        },
    );
    ServerView {
        host,
        address: match filled_setting(settings, prefix + "Address"@) {
            Some(address) => address,
            None => host,
        },
        port: setting_or(settings, prefix + "Port"@, "12345"@),
        principal: setting_or(settings, prefix + "Principal"@, Seq::empty()),
    }
}

/// Whether a setting is `yes`, in upper or lower case.
pub open spec fn is_yes(settings: Settings, key: Seq<char>) -> bool {
    match setting(settings, key) {
        Some(value) => text::equal_up_to_case(value, "yes"@),
        None => false,
    }
}

/// A numeric setting, or its default where it is missing.
pub open spec fn number_setting(settings: Settings, key: Seq<char>, default: u32) -> Result<
    u32,
    ConfigErrorView,
> {
    match setting(settings, key) {
        None => Ok(default),
        Some(value) => match text::parsed_number(value, u32::MAX as nat) {
            Some(number) => Ok(number as u32),
            None => Err(ConfigErrorView::InvalidNumber { field: key, value }),
        },
    }
}

/// The client settings that the blocks of a configuration make. The first
/// number that is not one decides.
pub open spec fn client_settings(blocks: Map<Seq<char>, Settings>) -> Result<
    ClientConfigView,
    ConfigErrorView,
> {
    let common = block_settings(blocks, "common"@);
    let api = block_settings(blocks, "api"@);
    match number_setting(common, "Retries"@, 3) {
        Err(error) => Err(error),
        Ok(retries) => match number_setting(common, "Timeout"@, 10) {
            Err(error) => Err(error),
            Ok(timeout) => match number_setting(common, "Delay"@, 10) {
                Err(error) => Err(error),
                Ok(delay) => Ok(
                    ClientConfigView {
                        primary: server_settings(common, "Primary"@, false),
                        secondary: if has_key(common, "SecondaryHost"@) {
                            Some(server_settings(common, "Secondary"@, true))
                        } else {
                            None
                        },
                        cross_realm: filled_setting(common, "CrossRealm"@),
                        nat: is_yes(common, "NAT"@),
                        retries,
                        timeout: Duration { secs: timeout as u64, nanos: 0 },
                        delay: Duration { secs: delay as u64, nanos: 0 },
                        helper_script: filled_setting(api, "HelperScript"@),
                    },
                ),
            },
        },
    }
}

/// The configuration that a text stands for.
pub open spec fn parsed_config(input: Seq<char>) -> Result<AuksConfigView, ConfigErrorView> {
    match grammar::blocks_of(input) {
        Err(error) => Err(
            ConfigErrorView::Syntax { offset: error.offset, message: error.message },
        ),
        Ok(blocks) => match client_settings(blocks) {
            Err(error) => Err(error),
            Ok(client) => Ok(AuksConfigView { client, blocks }),
        },
    }
}

/// Finds the value of a setting, whatever the case of its key.
fn find<'a>(settings: &'a OrdMap<String>, key: &str) -> (value: Option<&'a String>)
    ensures
        match setting(grammar::settings_view(*settings), key@) {
            Some(expected) => value is Some && value->Some_0@ == expected,
            None => value is None,
        },
        value is Some <==> has_key(grammar::settings_view(*settings), key@),
{
    let ghost texts = grammar::settings_view(*settings);
    if let Some(value) = settings.get(key) {
        proof {
            assert(texts.contains_key(key@));
            lemma_one_spelling(texts, key@, key@);
        }
        return Some(value);
    }
    let entries = settings.entries();
    let mut at: usize = 0;
    while at < entries.len()
        invariant
            at <= entries@.len(),
            texts == grammar::settings_view(*settings),
            !texts.contains_key(key@),
            ordmap::in_key_order(entries@),
            ordmap::entry_map(entries@) == settings@,
            forall|i: int| 0 <= i < at ==> !same_key(#[trigger] entries@[i].0@, key@),
        decreases entries@.len() - at,
    {
        if eq_ignore_case(entries[at].0.as_str(), key) {
            proof {
                let spelling = entries@[at as int].0@;
                ordmap::lemma_entry(entries@, at as int);
                assert(texts.contains_key(spelling));
                assert forall|other: Seq<char>| #[trigger]
                    texts.contains_key(other) && same_key(other, key@) && other
                        != spelling implies ordmap::key_before(spelling, other) by {
                    assert(ordmap::holds_key(entries@, other));
                    let i = ordmap::position(entries@, other);
                    assert(entries@[i].0@ == other);
                }
                lemma_one_spelling(texts, key@, spelling);
            }
            return Some(&entries[at].1);
        }
        at = at + 1;
    }
    proof {
        if has_key(texts, key@) {
            let spelling = choose|spelling: Seq<char>| #[trigger]
                texts.contains_key(spelling) && same_key(spelling, key@);
            assert(ordmap::holds_key(entries@, spelling));
            let i = ordmap::position(entries@, spelling);
            assert(entries@[i].0@ == spelling);
        }
    }
    None
}

/// The value of a setting, or `fallback` where it is missing.
fn text_setting(settings: &OrdMap<String>, key: &str, fallback: &str) -> (value: String)
    ensures
        value@ == setting_or(grammar::settings_view(*settings), key@, fallback@),
{
    match find(settings, key) {
        Some(value) => value.clone(),
        None => fallback.to_owned(),
    }
}

/// The value of a setting that is there and not empty.
fn nonempty_setting(settings: &OrdMap<String>, key: &str) -> (value: Option<String>)
    ensures
        optional_text(value) == filled_setting(grammar::settings_view(*settings), key@),
{
    match find(settings, key) {
        Some(value) => if value.as_str().is_empty() {
            None
        } else {
            Some(value.clone())
        },
        None => None,
    }
}

fn server(settings: &OrdMap<String>, prefix: &str, optional: bool) -> (server: Server)
    ensures
        server@ == server_settings(grammar::settings_view(*settings), prefix@, optional),
{
    proof {
        reveal_strlit("");
        assert(""@ =~= Seq::empty());
    }
    let host = text_setting(
        settings,
        prefix.to_owned().concat("Host").as_str(),
        if optional {
            ""
        } else {
            "localhost"
        },
    );
    let address = match nonempty_setting(settings, prefix.to_owned().concat("Address").as_str()) {
        Some(address) => address,
        None => host.clone(),
    };
    let port = text_setting(settings, prefix.to_owned().concat("Port").as_str(), "12345");
    let principal = text_setting(settings, prefix.to_owned().concat("Principal").as_str(), "");
    Server { host, address, port, principal }
}

fn number(settings: &OrdMap<String>, key: &'static str, default: u32) -> (number: Result<
    u32,
    ConfigError,
>)
    ensures
        match number_setting(grammar::settings_view(*settings), key@, default) {
            Ok(expected) => number == Ok::<_, ConfigError>(expected),
            Err(error) => number is Err && number->Err_0@ == error,
        },
{
    match find(settings, key) {
        Some(value) => match parse_u32(value.as_str()) {
            Some(number) => Ok(number),
            None => Err(ConfigError::InvalidNumber { field: key, value: value.clone() }),
        },
        None => Ok(default),
    }
}

fn yes_setting(settings: &OrdMap<String>, key: &str) -> (yes: bool)
    ensures
        yes == is_yes(grammar::settings_view(*settings), key@),
{
    match find(settings, key) {
        Some(value) => eq_ignore_case(value.as_str(), "yes"),
        None => false,
    }
}

/// The client settings of the blocks of a configuration.
pub fn client_config(blocks: &OrdMap<OrdMap<String>>) -> (client: Result<
    ClientConfig,
    ConfigError,
>)
    ensures
        match client_settings(grammar::blocks_view(*blocks)) {
            Ok(expected) => client is Ok && client->Ok_0@ == expected,
            Err(error) => client is Err && client->Err_0@ == error,
        },
{
    let none: OrdMap<String> = OrdMap::new();
    assert(grammar::settings_view(none) =~= Map::empty());
    let common = match blocks.get("common") {
        Some(settings) => settings,
        None => &none,
    };
    let api = match blocks.get("api") {
        Some(settings) => settings,
        None => &none,
    };
    let primary = server(common, "Primary", false);
    let secondary = if find(common, "SecondaryHost").is_some() {
        Some(server(common, "Secondary", true))
    } else {
        None
    };
    let cross_realm = nonempty_setting(common, "CrossRealm");
    let behind_nat = yes_setting(common, "NAT");
    let retries: u32 = match number(common, "Retries", 3) {
        Ok(retries) => retries,
        Err(error) => return Err(error),
    };
    let timeout: u32 = match number(common, "Timeout", 10) {
        Ok(timeout) => timeout,
        Err(error) => return Err(error),
    };
    let delay: u32 = match number(common, "Delay", 10) {
        Ok(delay) => delay,
        Err(error) => return Err(error),
    };
    let helper_script = nonempty_setting(api, "HelperScript");
    Ok(
        ClientConfig {
            primary,
            secondary,
            cross_realm,
            nat: behind_nat,
            retries,
            timeout: Duration::from_secs(timeout as u64),
            delay: Duration::from_secs(delay as u64),
            helper_script,
        },
    )
}

/// Parses an AUKS configuration string.
pub fn parse_str(input: &str) -> (config: Result<AuksConfig, ConfigError>)
    ensures
        match parsed_config(input@) {
            Ok(expected) => config is Ok && config->Ok_0@ == expected,
            Err(error) => config is Err && config->Err_0@ == error,
        },
{
    let blocks = match parse_blocks(input) {
        Ok(blocks) => blocks,
        Err(error) => return Err(
            ConfigError::Syntax { offset: error.offset, message: error.message },
        ),
    };
    match client_config(&blocks) {
        Ok(client) => Ok(AuksConfig { client, blocks }),
        Err(error) => Err(error),
    }
}

/// The configuration that comes of reading a file: its text parsed, or why it
/// could not be read.
pub open spec fn read_config(read: Result<Seq<char>, Seq<char>>) -> Result<
    AuksConfigView,
    ConfigErrorView,
> {
    match read {
        Ok(contents) => parsed_config(contents),
        Err(message) => Err(ConfigErrorView::Io(message)),
    }
}

/// The outcome of reading a file as a value.
pub open spec fn read_outcome(read: Result<String, String>) -> Result<Seq<char>, Seq<char>> {
    match read {
        Ok(contents) => Ok(contents@),
        Err(message) => Err(message@),
    }
}

/// Parses what came of reading an AUKS configuration file: its contents, or the
/// failure in words.
pub fn parse_read(read: Result<String, String>) -> (config: Result<AuksConfig, ConfigError>)
    ensures
        match read_config(read_outcome(read)) {
            Ok(expected) => config is Ok && config->Ok_0@ == expected,
            Err(error) => config is Err && config->Err_0@ == error,
        },
{
    match read {
        Ok(contents) => parse_str(contents.as_str()),
        Err(message) => Err(ConfigError::Io(message)),
    }
}

/// A configuration that sets nothing for the client gives the defaults.
pub proof fn law_defaults(blocks: Map<Seq<char>, Settings>)
    requires
        !blocks.contains_key("common"@),
        !blocks.contains_key("api"@),
    ensures
        client_settings(blocks) == Ok::<_, ConfigErrorView>(
            ClientConfigView {
                primary: ServerView {
                    host: "localhost"@,
                    address: "localhost"@,
                    port: "12345"@,
                    principal: Seq::empty(),
                },
                secondary: None,
                cross_realm: None,
                nat: false,
                retries: 3,
                timeout: Duration { secs: 10, nanos: 0 },
                delay: Duration { secs: 10, nanos: 0 },
                helper_script: None,
            },
        ),
{
}

/// Blocks other than `common` and `api` do not change the client settings.
pub proof fn law_other_blocks_are_kept_aside(
    blocks: Map<Seq<char>, Settings>,
    name: Seq<char>,
    settings: Settings,
)
    requires
        name != "common"@,
        name != "api"@,
    ensures
        client_settings(blocks.insert(name, settings)) == client_settings(blocks),
{
}

/// An endpoint always has an address where it has a host.
pub proof fn law_address_falls_back_to_host(settings: Settings, prefix: Seq<char>, optional: bool)
    ensures
        server_settings(settings, prefix, optional).host.len() > 0 ==> server_settings(
            settings,
            prefix,
            optional,
        ).address.len() > 0,
{
}

/// A configuration that is written out with its values in quotes gives the
/// client the settings that were written, and keeps all blocks.
pub proof fn law_written_configuration_applies(
    input: Seq<char>,
    blocks: Seq<(Seq<u8>, Seq<(Seq<u8>, Seq<u8>)>)>,
)
    requires
        vstd::utf8::encode_utf8(input) == grammar::written_blocks(blocks),
        forall|i: int|
            0 <= i < blocks.len() ==> grammar::is_written_name((#[trigger] blocks[i]).0)
                && grammar::has_written_names(blocks[i].1),
    ensures
        ({
            let kept = grammar::blocks_map(blocks, Map::empty());
            parsed_config(input) == match client_settings(kept) {
                Ok(client) => Ok(AuksConfigView { client, blocks: kept }),
                Err(error) => Err(error),
            }
        }),
{
    grammar::law_written_configuration_reads_back(input, blocks);
}

/// A setting is found under every spelling of its key or under none, and where
/// no key is there in two spellings it has the same value under all.
pub proof fn law_key_case_is_ignored(settings: Settings, key: Seq<char>, other: Seq<char>)
    requires
        same_key(key, other),
    ensures
        has_key(settings, key) == has_key(settings, other),
        setting(settings, key) is Some == setting(settings, other) is Some,
        (forall|a: Seq<char>, b: Seq<char>| #[trigger]
            settings.contains_key(a) && #[trigger] settings.contains_key(b) && same_key(a, b)
                ==> a == b) ==> setting(settings, key) == setting(settings, other),
{
    assert forall|spelling: Seq<char>|
        same_key(spelling, key) == #[trigger] same_key(spelling, other) by {
        lemma_same_key_chain(spelling, key, other);
        lemma_same_key_chain(spelling, other, key);
    }
    if has_key(settings, key) {
        let spelling = choose|spelling: Seq<char>| #[trigger]
            settings.contains_key(spelling) && same_key(spelling, key);
        assert(settings.contains_key(spelling) && same_key(spelling, other));
        if forall|a: Seq<char>, b: Seq<char>| #[trigger]
            settings.contains_key(a) && #[trigger] settings.contains_key(b) && same_key(a, b)
                ==> a == b {
            lemma_only_spelling(settings, key, spelling);
            lemma_only_spelling(settings, other, spelling);
        }
    }
    if has_key(settings, other) {
        let spelling = choose|spelling: Seq<char>| #[trigger]
            settings.contains_key(spelling) && same_key(spelling, other);
        assert(settings.contains_key(spelling) && same_key(spelling, key));
    }
}

proof fn lemma_same_key_chain(a: Seq<char>, b: Seq<char>, c: Seq<char>)
    requires
        same_key(b, c) || same_key(c, b),
    ensures
        same_key(a, b) ==> same_key(a, c),
{
    if same_key(a, b) {
        assert forall|i: int| 0 <= i < a.len() implies text::folded(#[trigger] a[i])
            == text::folded(#[trigger] c[i]) by {
            assert(text::folded(a[i]) == text::folded(b[i]));
            assert(text::folded(b[i]) == text::folded(c[i]));
        }
    }
}

proof fn lemma_only_spelling(settings: Settings, key: Seq<char>, spelling: Seq<char>)
    requires
        settings.contains_key(spelling),
        same_key(spelling, key),
        forall|a: Seq<char>, b: Seq<char>| #[trigger]
            settings.contains_key(a) && #[trigger] settings.contains_key(b) && same_key(a, b)
                ==> a == b,
    ensures
        setting(settings, key) == Some(settings[spelling]),
{
    assert forall|other: Seq<char>| #[trigger]
        settings.contains_key(other) && same_key(other, key) implies other == spelling by {
        assert forall|i: int| 0 <= i < other.len() implies text::folded(#[trigger] other[i])
            == text::folded(#[trigger] spelling[i]) by {
            assert(text::folded(other[i]) == text::folded(key[i]));
            assert(text::folded(spelling[i]) == text::folded(key[i]));
        }
    }
    assert(same_key(key, key));
    lemma_one_spelling(settings, key, spelling);
}

/// A setting that is written under its exact key is read under it, whatever
/// other spellings are there.
pub proof fn law_exact_spelling_wins(settings: Settings, key: Seq<char>)
    requires
        settings.contains_key(key),
    ensures
        setting(settings, key) == Some(settings[key]),
{
    assert(same_key(key, key));
    lemma_one_spelling(settings, key, key);
}

proof fn lemma_first_key(keys: Set<Seq<char>>) -> (first: Seq<char>)
    requires
        keys.finite(),
        keys.len() > 0,
    ensures
        keys.contains(first),
        forall|other: Seq<char>| #[trigger]
            keys.contains(other) && other != first ==> ordmap::key_before(first, other),
    decreases keys.len(),
{
    let some = keys.choose();
    let others = keys.remove(some);
    if others.len() == 0 {
        assert forall|other: Seq<char>| #[trigger]
            keys.contains(other) && other != some implies ordmap::key_before(some, other) by {
            assert(others.contains(other));
        }
        some
    } else {
        let first = lemma_first_key(others);
        ordmap::law_key_order_is_total(some, first, first);
        if some == first || ordmap::key_before(first, some) {
            assert forall|other: Seq<char>| #[trigger]
                keys.contains(other) && other != first implies ordmap::key_before(
                first,
                other,
            ) by {
                if other != some {
                    assert(others.contains(other));
                }
            }
            first
        } else {
            assert forall|other: Seq<char>| #[trigger]
                keys.contains(other) && other != some implies ordmap::key_before(
                some,
                other,
            ) by {
                assert(others.contains(other));
                ordmap::law_key_order_is_total(some, first, other);
            }
            some
        }
    }
}

/// A setting is found under its exact key; else under the first key, in key
/// order, that differs from it only in the case of ASCII letters; else it is
/// missing.
pub proof fn law_settings_are_found(settings: Settings, key: Seq<char>)
    requires
        settings.dom().finite(),
    ensures
        settings.contains_key(key) ==> setting(settings, key) == Some(settings[key]),
        (forall|spelling: Seq<char>| #[trigger]
            settings.contains_key(spelling) ==> !text::equal_up_to_case(spelling, key)) ==> setting(
            settings,
            key,
        ) is None,
        !settings.contains_key(key) && (exists|spelling: Seq<char>| #[trigger]
            settings.contains_key(spelling) && text::equal_up_to_case(spelling, key)) ==> exists|
            first: Seq<char>,
        |
            {
                &&& #[trigger] settings.contains_key(first)
                &&& text::equal_up_to_case(first, key)
                &&& setting(settings, key) == Some(settings[first])
                &&& forall|other: Seq<char>| #[trigger]
                    settings.contains_key(other) && text::equal_up_to_case(other, key) && other
                        != first ==> ordmap::key_before(first, other)
            },
{
    if settings.contains_key(key) {
        law_exact_spelling_wins(settings, key);
    } else if has_key(settings, key) {
        let spellings = settings.dom().filter(
            |spelling: Seq<char>| text::equal_up_to_case(spelling, key),
        );
        let some = choose|spelling: Seq<char>| #[trigger]
            settings.contains_key(spelling) && same_key(spelling, key);
        settings.dom().lemma_len_filter(
            |spelling: Seq<char>| text::equal_up_to_case(spelling, key),
        );
        assert(spellings.contains(some));
        let first = lemma_first_key(spellings);
        assert forall|other: Seq<char>| #[trigger]
            settings.contains_key(other) && same_key(other, key) && other
                != first implies ordmap::key_before(first, other) by {
            assert(spellings.contains(other));
        }
        assert(settings.contains_key(first));
        lemma_one_spelling(settings, key, first);
    }
}

/// The settings of the block of a name, none where there is no such block.
pub open spec fn block_of(blocks: Map<Seq<char>, Settings>, name: Seq<char>) -> Settings {
    if blocks.contains_key(name) {
        blocks[name]
    } else {
        Map::empty()
    }
}

/// Whether a text is a found value, or the value that holds without one.
pub open spec fn is_found_or(
    text: Seq<char>,
    found: Option<Seq<char>>,
    fallback: Seq<char>,
) -> bool {
    match found {
        Some(value) => text == value,
        None => text == fallback,
    }
}

/// Whether an optional text is a found value that is not empty.
pub open spec fn is_filled(text: Option<Seq<char>>, found: Option<Seq<char>>) -> bool {
    match found {
        Some(value) => if value.len() == 0 {
            text is None
        } else {
            text == Some(value)
        },
        None => text is None,
    }
}

/// Whether an address is a found one that is not empty, or else the host.
pub open spec fn is_address(
    address: Seq<char>,
    found: Option<Seq<char>>,
    host: Seq<char>,
) -> bool {
    match found {
        Some(value) => address == (if value.len() == 0 {
            host
        } else {
            value
        }),
        None => address == host,
    }
}

proof fn lemma_endpoint_keys()
    ensures
        "Primary"@ + "Host"@ == "PrimaryHost"@,
        "Primary"@ + "Address"@ == "PrimaryAddress"@,
        "Primary"@ + "Port"@ == "PrimaryPort"@,
        "Primary"@ + "Principal"@ == "PrimaryPrincipal"@,
        "Secondary"@ + "Host"@ == "SecondaryHost"@,
        "Secondary"@ + "Address"@ == "SecondaryAddress"@,
        "Secondary"@ + "Port"@ == "SecondaryPort"@,
        "Secondary"@ + "Principal"@ == "SecondaryPrincipal"@,
{
    reveal_strlit("Primary");
    reveal_strlit("Secondary");
    reveal_strlit("Host");
    reveal_strlit("Address");
    reveal_strlit("Port");
    reveal_strlit("Principal");
    reveal_strlit("PrimaryHost");
    reveal_strlit("PrimaryAddress");
    reveal_strlit("PrimaryPort");
    reveal_strlit("PrimaryPrincipal");
    reveal_strlit("SecondaryHost");
    reveal_strlit("SecondaryAddress");
    reveal_strlit("SecondaryPort");
    reveal_strlit("SecondaryPrincipal");
    assert("Primary"@ + "Host"@ =~= "PrimaryHost"@);
    assert("Primary"@ + "Address"@ =~= "PrimaryAddress"@);
    assert("Primary"@ + "Port"@ =~= "PrimaryPort"@);
    assert("Primary"@ + "Principal"@ =~= "PrimaryPrincipal"@);
    assert("Secondary"@ + "Host"@ =~= "SecondaryHost"@);
    assert("Secondary"@ + "Address"@ =~= "SecondaryAddress"@);
    assert("Secondary"@ + "Port"@ =~= "SecondaryPort"@);
    assert("Secondary"@ + "Principal"@ =~= "SecondaryPrincipal"@);
}

/// The endpoints come from the block `common`. The primary one is `localhost`
/// where no host is named, and there is a secondary one exactly where its host
/// is named. Each is reached at its address, or at its host where no address is
/// named or that is empty, and at port 12345 where no port is named.
pub proof fn law_endpoints_of_the_client(blocks: Map<Seq<char>, Settings>)
    ensures
        client_settings(blocks) matches Ok(client) ==> {
            let common = block_of(blocks, "common"@);
            let primary = client.primary;
            &&& is_found_or(primary.host, setting(common, "PrimaryHost"@), "localhost"@)
            &&& is_address(primary.address, setting(common, "PrimaryAddress"@), primary.host)
            &&& is_found_or(primary.port, setting(common, "PrimaryPort"@), "12345"@)
            &&& is_found_or(primary.principal, setting(common, "PrimaryPrincipal"@), Seq::empty())
            &&& client.secondary is Some <==> setting(common, "SecondaryHost"@) is Some
            &&& client.secondary matches Some(secondary) ==> {
                &&& setting(common, "SecondaryHost"@) == Some(secondary.host)
                &&& is_address(
                    secondary.address,
                    setting(common, "SecondaryAddress"@),
                    secondary.host,
                )
                &&& is_found_or(secondary.port, setting(common, "SecondaryPort"@), "12345"@)
                &&& is_found_or(
                    secondary.principal,
                    setting(common, "SecondaryPrincipal"@),
                    Seq::empty(),
                )
            }
        },
{
    lemma_endpoint_keys();
}

/// Whether a number is the one that a found value names, or the one that holds
/// without a value.
pub open spec fn is_number_or(number: int, found: Option<Seq<char>>, fallback: int) -> bool {
    match found {
        Some(value) => text::parsed_number(value, 4294967295) == Some(number as nat) && number >= 0,
        None => number == fallback,
    }
}

/// The other client settings come from the block `common` and the helper script
/// from the block `api`. NAT traversal is on exactly where it is set to `yes`,
/// in any case; an empty cross-realm target or script counts as missing; and
/// without a number there are 3 retries, and 10 seconds for the time limit and
/// for the delay.
pub proof fn law_other_settings_of_the_client(blocks: Map<Seq<char>, Settings>)
    ensures
        client_settings(blocks) matches Ok(client) ==> {
            let common = block_of(blocks, "common"@);
            let api = block_of(blocks, "api"@);
            &&& client.nat <==> (setting(common, "NAT"@) matches Some(value)
                && text::equal_up_to_case(value, "yes"@))
            &&& is_filled(client.cross_realm, setting(common, "CrossRealm"@))
            &&& is_filled(client.helper_script, setting(api, "HelperScript"@))
            &&& is_number_or(client.retries as int, setting(common, "Retries"@), 3)
            &&& is_number_or(client.timeout.secs as int, setting(common, "Timeout"@), 10)
            &&& is_number_or(client.delay.secs as int, setting(common, "Delay"@), 10)
            &&& client.timeout.nanos == 0
            &&& client.delay.nanos == 0
        },
{
}

/// Whether a found value is no number.
pub open spec fn is_no_number(found: Option<Seq<char>>) -> bool {
    found matches Some(value) && text::parsed_number(value, 4294967295) is None
}

/// There are client settings unless one of the three numbers is none. Then the
/// first of them decides, in the order retries, time limit, delay, and the error
/// names the setting and its value.
pub proof fn law_numbers_that_are_none(blocks: Map<Seq<char>, Settings>)
    ensures
        ({
            let common = block_of(blocks, "common"@);
            let retries = setting(common, "Retries"@);
            let timeout = setting(common, "Timeout"@);
            let delay = setting(common, "Delay"@);
            let refused = |field: Seq<char>, found: Option<Seq<char>>|
                Err::<ClientConfigView, _>(
                    ConfigErrorView::InvalidNumber { field, value: found->Some_0 },
                );
            &&& is_no_number(retries) ==> client_settings(blocks) == refused("Retries"@, retries)
            &&& !is_no_number(retries) && is_no_number(timeout) ==> client_settings(blocks)
                == refused("Timeout"@, timeout)
            &&& !is_no_number(retries) && !is_no_number(timeout) && is_no_number(delay)
                ==> client_settings(blocks) == refused("Delay"@, delay)
            &&& !is_no_number(retries) && !is_no_number(timeout) && !is_no_number(delay)
                ==> client_settings(blocks) is Ok
        }),
{
}

/// A configuration has the blocks of its text and the client settings that they
/// make. An error of the syntax keeps its place and its words, an error of the
/// settings stays what it is, and a file that could not be read gives the words
/// of that failure.
pub proof fn law_configuration_of_a_text(input: Seq<char>, failure: Seq<char>)
    ensures
        grammar::blocks_of(input) matches Err(error) ==> parsed_config(input) == Err::<
            AuksConfigView,
            _,
        >(ConfigErrorView::Syntax { offset: error.offset, message: error.message }),
        grammar::blocks_of(input) matches Ok(blocks) ==> {
            &&& client_settings(blocks) matches Err(error) ==> parsed_config(input) == Err::<
                AuksConfigView,
                _,
            >(error)
            &&& client_settings(blocks) matches Ok(client) ==> (parsed_config(input) matches Ok(
                config,
            ) && config.client == client && config.blocks == blocks)
        },
        read_config(Ok(input)) == parsed_config(input),
        read_config(Err(failure)) == Err::<AuksConfigView, _>(ConfigErrorView::Io(failure)),
{
}

} // verus!
