//! The configuration of the SPANK plugin.
use crate::config::copy_text;
use crate::mode::Mode;
use crate::text::{self, c_text, parse_u32, str_eq, strip_prefix};
use vstd::prelude::*;

verus! {

/// Parsed plugstack configuration.
#[derive(Debug, PartialEq, Eq)]
pub struct PluginConfig {
    /// AUKS synchronization mode.
    pub sync: Option<String>,
    /// Default AUKS mode.
    pub default_mode: Mode,
    /// Whether stack credential publication is enabled.
    pub spankstackcred: bool,
    /// Whether failures are enforced.
    pub enforced: bool,
    /// Whether FILE ccaches are forced.
    pub force_file_ccache: bool,
    /// Whether ccache switching is disabled.
    pub no_cc_switch: bool,
    /// Minimum UID allowed to use AUKS.
    pub minimum_uid: Option<u32>,
}

/// A plugstack configuration as a value.
pub struct PluginConfigView {
    pub sync: Option<Seq<char>>,
    pub default_mode: Mode,
    pub spankstackcred: bool,
    pub enforced: bool,
    pub force_file_ccache: bool,
    pub no_cc_switch: bool,
    pub minimum_uid: Option<u32>,
}

impl View for PluginConfig {
    type V = PluginConfigView;

    open spec fn view(&self) -> PluginConfigView {
        PluginConfigView {
            sync: crate::config::optional_text(self.sync),
            default_mode: self.default_mode,
            spankstackcred: self.spankstackcred,
            enforced: self.enforced,
            force_file_ccache: self.force_file_ccache,
            no_cc_switch: self.no_cc_switch,
            minimum_uid: self.minimum_uid,
        }
    }
}

/// The configuration without any argument.
pub open spec fn default_config() -> PluginConfigView {
    PluginConfigView {
        sync: None,
        default_mode: Mode::Disabled,
        spankstackcred: false,
        enforced: false,
        force_file_ccache: false,
        no_cc_switch: false,
        minimum_uid: None,
    }
}

impl Default for PluginConfig {
    fn default() -> (config: Self)
        ensures
            config@ == default_config(),
    {
        PluginConfig {
            sync: None,
            default_mode: Mode::Disabled,
            spankstackcred: false,
            enforced: false,
            force_file_ccache: false,
            no_cc_switch: false,
            minimum_uid: None,
        }
    }
}

impl Clone for PluginConfig {
    fn clone(&self) -> (copy: Self)
        ensures
            copy == *self,
    {
        PluginConfig {
            sync: copy_text(&self.sync),
            default_mode: self.default_mode,
            spankstackcred: self.spankstackcred,
            enforced: self.enforced,
            force_file_ccache: self.force_file_ccache,
            no_cc_switch: self.no_cc_switch,
            minimum_uid: self.minimum_uid,
        }
    }
}

/// The configuration after one more argument, or `None` where the argument is
/// not understood. `conf=` is understood and changes nothing.
pub open spec fn applied(config: PluginConfigView, argument: Seq<char>) -> Option<
    PluginConfigView,
> {
    if let Some(value) = text::stripped(argument, "sync="@) {
        Some(PluginConfigView { sync: Some(value), ..config })
    } else if let Some(value) = text::stripped(argument, "default="@) {
        if value == "enabled"@ {
            Some(PluginConfigView { default_mode: Mode::Enabled, ..config })
        } else if value == "disabled"@ {
            Some(PluginConfigView { default_mode: Mode::Disabled, ..config })
        } else {
            None
        }
    } else if argument == "spankstackcred=yes"@ {
        Some(PluginConfigView { spankstackcred: true, ..config })
    } else if argument == "enforced"@ {
        Some(PluginConfigView { enforced: true, ..config })
    } else if argument == "force_file_ccache"@ {
        Some(PluginConfigView { force_file_ccache: true, ..config })
    } else if argument == "no_cc_switch"@ {
        Some(PluginConfigView { no_cc_switch: true, ..config })
    } else if let Some(value) = text::stripped(argument, "minimum_uid="@) {
        match text::parsed_number(value, u32::MAX as nat) {
            Some(uid) => Some(PluginConfigView { minimum_uid: Some(uid as u32), ..config }),
            None => None,
        }
    } else if text::has_prefix(argument, "conf="@) {
        Some(config)
    } else {
        None
    }
}

/// The configuration that arguments make, one after the other, and those of
/// them that are not understood, in their order.
pub open spec fn parsed_arguments(arguments: Seq<Seq<char>>) -> (PluginConfigView, Seq<Seq<char>>)
    decreases arguments.len(),
{
    if arguments.len() == 0 {
        (default_config(), Seq::empty())
    } else {
        let (config, unknown) = parsed_arguments(arguments.drop_last());
        match applied(config, arguments.last()) {
            Some(config) => (config, unknown),
            None => (config, unknown.push(arguments.last())),
        }
    }
}

/// The texts of strings.
pub open spec fn texts(strings: Seq<String>) -> Seq<Seq<char>> {
    Seq::new(strings.len(), |i: int| strings[i]@)
}

fn apply(config: &mut PluginConfig, argument: &str) -> (known: bool)
    ensures
        match applied(old(config)@, argument@) {
            Some(expected) => known && final(config)@ == expected,
            None => !known && final(config)@ == old(config)@,
        },
{
    if let Some(value) = strip_prefix(argument, "sync=") {
        config.sync = Some(value.to_owned());
        return true;
    }
    if let Some(value) = strip_prefix(argument, "default=") {
        if str_eq(value, "enabled") {
            config.default_mode = Mode::Enabled;
            return true;
        }
        if str_eq(value, "disabled") {
            config.default_mode = Mode::Disabled;
            return true;
        }
        return false;
    }
    if str_eq(argument, "spankstackcred=yes") {
        config.spankstackcred = true;
        return true;
    }
    if str_eq(argument, "enforced") {
        config.enforced = true;
        return true;
    }
    if str_eq(argument, "force_file_ccache") {
        config.force_file_ccache = true;
        return true;
    }
    if str_eq(argument, "no_cc_switch") {
        config.no_cc_switch = true;
        return true;
    }
    if let Some(value) = strip_prefix(argument, "minimum_uid=") {
        return match parse_u32(value) {
            Some(uid) => {
                config.minimum_uid = Some(uid);
                true
            },
            None => false,
        };
    }
    strip_prefix(argument, "conf=").is_some()
}

/// Parses plugstack arguments and returns unrecognized arguments separately.
pub fn parse(args: &[String]) -> (parsed: (PluginConfig, Vec<String>))
    ensures
        parsed.0@ == parsed_arguments(texts(args@)).0,
        texts(parsed.1@) == parsed_arguments(texts(args@)).1,
{
    let mut config = PluginConfig::default();
    let mut unknown: Vec<String> = Vec::new();
    let mut at: usize = 0;
    assert(texts(args@).take(0) =~= Seq::empty());
    assert(texts(unknown@) =~= Seq::empty());
    while at < args.len()
        invariant
            at <= args@.len(),
            config@ == parsed_arguments(texts(args@).take(at as int)).0,
            texts(unknown@) == parsed_arguments(texts(args@).take(at as int)).1,
        decreases args@.len() - at,
    {
        let ghost before = unknown@;
        proof {
            let now = texts(args@).take(at + 1);
            assert(now.drop_last() =~= texts(args@).take(at as int));
            assert(now.last() == args@[at as int]@);
        }
        if !apply(&mut config, args[at].as_str()) {
            unknown.push(args[at].clone());
            assert(texts(unknown@) =~= texts(before).push(args@[at as int]@));
        }
        at = at + 1;
    }
    assert(texts(args@).take(at as int) =~= texts(args@));
    (config, unknown)
}

/// The texts of the arguments that are there.
pub open spec fn present_arguments(values: Seq<Option<Vec<u8>>>) -> Seq<Seq<char>>
    decreases values.len(),
{
    if values.len() == 0 {
        Seq::empty()
    } else {
        let before = present_arguments(values.drop_last());
        match values.last() {
            Some(bytes) => before.push(text::lossy_utf8(text::before_nul(bytes@))),
            None => before,
        }
    }
}

/// Reads the arguments that Slurm hands over as NUL-terminated strings. Those
/// that are not there are passed over.
pub fn arguments(values: &Vec<Option<Vec<u8>>>) -> (arguments: Vec<String>)
    ensures
        texts(arguments@) == present_arguments(values@),
{
    let mut arguments: Vec<String> = Vec::new();
    let mut at: usize = 0;
    assert(values@.take(0) =~= Seq::empty());
    assert(texts(arguments@) =~= Seq::empty());
    while at < values.len()
        invariant
            at <= values@.len(),
            texts(arguments@) == present_arguments(values@.take(at as int)),
        decreases values@.len() - at,
    {
        let ghost before = arguments@;
        proof {
            let now = values@.take(at + 1);
            assert(now.drop_last() =~= values@.take(at as int));
            assert(now.last() == values@[at as int]);
        }
        if let Some(bytes) = &values[at] {
            let argument = c_text(bytes.as_slice());
            arguments.push(argument);
            assert(texts(arguments@) =~= texts(before).push(argument@));
        }
        at = at + 1;
    }
    assert(values@.take(at as int) =~= values@);
    arguments
}

/// Whether an argument is understood does not depend on those before it: the
/// unknown ones are those that no configuration takes.
pub proof fn law_unknown_arguments(arguments: Seq<Seq<char>>)
    ensures
        parsed_arguments(arguments).1 == arguments.filter(
            |argument: Seq<char>| applied(default_config(), argument) is None,
        ),
    decreases arguments.len(),
{
    reveal(Seq::filter);
    if arguments.len() > 0 {
        law_unknown_arguments(arguments.drop_last());
    }
}

/// A later argument is read after the earlier ones: appending an argument
/// applies it to what they made.
pub proof fn law_later_argument_applies_last(arguments: Seq<Seq<char>>, argument: Seq<char>)
    ensures
        parsed_arguments(arguments.push(argument)).0 == match applied(
            parsed_arguments(arguments).0,
            argument,
        ) {
            Some(config) => config,
            None => parsed_arguments(arguments).0,
        },
{
    assert(arguments.push(argument).drop_last() =~= arguments);
}

/// Whether a text is `front` with something behind it.
pub open spec fn begins(text: Seq<char>, front: Seq<char>) -> bool {
    exists|rest: Seq<char>| text == #[trigger] (front + rest)
}

proof fn lemma_begins(text: Seq<char>, front: Seq<char>)
    ensures
        begins(text, front) == text::has_prefix(text, front),
        forall|rest: Seq<char>| #[trigger]
            (front + rest) == text ==> text::stripped(text, front) == Some(rest),
        text::stripped(text, front) matches Some(rest) ==> text == front + rest,
{
    if text::has_prefix(text, front) {
        let rest = text.skip(front.len() as int);
        assert(text =~= front + rest);
    }
    assert forall|rest: Seq<char>| #[trigger] (front + rest) == text implies text::stripped(
        text,
        front,
    ) == Some(rest) by {
        assert((front + rest).take(front.len() as int) =~= front);
        assert((front + rest).skip(front.len() as int) =~= rest);
    }
}

proof fn lemma_argument_words()
    ensures
        "sync="@ == seq!['s', 'y', 'n', 'c', '='],
        "default="@ == seq!['d', 'e', 'f', 'a', 'u', 'l', 't', '='],
        "minimum_uid="@ == seq!['m', 'i', 'n', 'i', 'm', 'u', 'm', '_', 'u', 'i', 'd', '='],
        "conf="@ == seq!['c', 'o', 'n', 'f', '='],
        "spankstackcred=yes"@.len() == 18,
        "spankstackcred=yes"@[0] == 's',
        "spankstackcred=yes"@[1] == 'p',
        "enforced"@.len() == 8,
        "enforced"@[0] == 'e',
        "force_file_ccache"@.len() == 17,
        "force_file_ccache"@[0] == 'f',
        "no_cc_switch"@.len() == 12,
        "no_cc_switch"@[0] == 'n',
{
    reveal_strlit("sync=");
    reveal_strlit("default=");
    reveal_strlit("minimum_uid=");
    reveal_strlit("conf=");
    reveal_strlit("spankstackcred=yes");
    reveal_strlit("enforced");
    reveal_strlit("force_file_ccache");
    reveal_strlit("no_cc_switch");
    assert("sync="@ =~= seq!['s', 'y', 'n', 'c', '=']);
    assert("default="@ =~= seq!['d', 'e', 'f', 'a', 'u', 'l', 't', '=']);
    assert("minimum_uid="@ =~= seq!['m', 'i', 'n', 'i', 'm', 'u', 'm', '_', 'u', 'i', 'd', '=']);
    assert("conf="@ =~= seq!['c', 'o', 'n', 'f', '=']);
}

/// A flag is none of the arguments that carry a value.
proof fn lemma_flag_carries_no_value(argument: Seq<char>)
    requires
        argument == "spankstackcred=yes"@ || argument == "enforced"@ || argument
            == "force_file_ccache"@ || argument == "no_cc_switch"@,
    ensures
        !text::has_prefix(argument, "sync="@),
        !text::has_prefix(argument, "default="@),
        !text::has_prefix(argument, "minimum_uid="@),
        !text::has_prefix(argument, "conf="@),
{
    lemma_argument_words();
    let s = "sync="@;
    let d = "default="@;
    let m = "minimum_uid="@;
    let c = "conf="@;
    if text::has_prefix(argument, s) {
        assert(argument.take(5)[0] == argument[0] && argument.take(5)[1] == argument[1]);
    }
    if text::has_prefix(argument, d) {
        assert(argument.take(8)[0] == argument[0]);
    }
    if text::has_prefix(argument, m) {
        assert(argument.take(12)[0] == argument[0]);
    }
    if text::has_prefix(argument, c) {
        assert(argument.take(5)[0] == argument[0]);
    }
}

/// Arguments that carry values begin differently.
proof fn lemma_values_differ(argument: Seq<char>)
    ensures
        text::has_prefix(argument, "sync="@) ==> !text::has_prefix(argument, "default="@)
            && !text::has_prefix(argument, "minimum_uid="@) && !text::has_prefix(argument, "conf="@),
        text::has_prefix(argument, "default="@) ==> !text::has_prefix(argument, "minimum_uid="@)
            && !text::has_prefix(argument, "conf="@),
        text::has_prefix(argument, "minimum_uid="@) ==> !text::has_prefix(argument, "conf="@),
{
    lemma_argument_words();
    if argument.len() >= 5 {
        assert(argument.take(5)[0] == argument[0]);
    }
    if argument.len() >= 8 {
        assert(argument.take(8)[0] == argument[0]);
    }
    if argument.len() >= 12 {
        assert(argument.take(12)[0] == argument[0]);
    }
}

/// A flag is set exactly where its name is among the arguments, whatever the
/// other arguments are.
pub proof fn law_flags_are_set_by_name(arguments: Seq<Seq<char>>)
    ensures
        parsed_arguments(arguments).0.spankstackcred <==> arguments.contains(
            "spankstackcred=yes"@,
        ),
        parsed_arguments(arguments).0.enforced <==> arguments.contains("enforced"@),
        parsed_arguments(arguments).0.force_file_ccache <==> arguments.contains(
            "force_file_ccache"@,
        ),
        parsed_arguments(arguments).0.no_cc_switch <==> arguments.contains("no_cc_switch"@),
    decreases arguments.len(),
{
    if arguments.len() > 0 {
        let before = arguments.drop_last();
        let last = arguments.last();
        law_flags_are_set_by_name(before);
        assert(arguments =~= before.push(last));
        assert forall|word: Seq<char>| #[trigger]
            arguments.contains(word) == (before.contains(word) || last == word) by {
            if before.contains(word) {
                let i = choose|i: int| 0 <= i < before.len() && before[i] == word;
                assert(arguments[i] == word);
            }
            if last == word {
                assert(arguments[arguments.len() - 1] == word);
            }
            if arguments.contains(word) {
                let i = choose|i: int| 0 <= i < arguments.len() && arguments[i] == word;
                assert(i == arguments.len() - 1 || before[i] == word);
            }
        }
        if last == "spankstackcred=yes"@ || last == "enforced"@ || last == "force_file_ccache"@
            || last == "no_cc_switch"@ {
            lemma_flag_carries_no_value(last);
        }
        lemma_argument_words();
    }
}

/// The last of the arguments that carry a value of some kind decides it, and
/// arguments of other kinds leave it alone: `sync=` takes any text, `default=`
/// one of two words, and `minimum_uid=` a number.
pub proof fn law_last_value_holds(
    arguments: Seq<Seq<char>>,
    sync: Seq<char>,
    uid: u32,
    argument: Seq<char>,
)
    ensures
        parsed_arguments(arguments.push("sync="@ + sync)).0 == (PluginConfigView {
            sync: Some(sync),
            ..parsed_arguments(arguments).0
        }),
        parsed_arguments(arguments.push("default=enabled"@)).0 == (PluginConfigView {
            default_mode: Mode::Enabled,
            ..parsed_arguments(arguments).0
        }),
        parsed_arguments(arguments.push("default=disabled"@)).0 == (PluginConfigView {
            default_mode: Mode::Disabled,
            ..parsed_arguments(arguments).0
        }),
        parsed_arguments(arguments.push("minimum_uid="@ + text::nat_text(uid as nat))).0 == (
        PluginConfigView { minimum_uid: Some(uid), ..parsed_arguments(arguments).0 }),
        !begins(argument, "sync="@) ==> parsed_arguments(arguments.push(argument)).0.sync
            == parsed_arguments(arguments).0.sync,
        argument != "default=enabled"@ && argument != "default=disabled"@ ==> parsed_arguments(
            arguments.push(argument),
        ).0.default_mode == parsed_arguments(arguments).0.default_mode,
        !begins(argument, "minimum_uid="@) ==> parsed_arguments(
            arguments.push(argument),
        ).0.minimum_uid == parsed_arguments(arguments).0.minimum_uid,
        parsed_arguments(Seq::empty()).0.sync is None,
        parsed_arguments(Seq::empty()).0.default_mode == Mode::Disabled,
        parsed_arguments(Seq::empty()).0.minimum_uid is None,
{
    let a = "sync="@ + sync;
    let e = "default=enabled"@;
    let d = "default=disabled"@;
    let m = "minimum_uid="@ + text::nat_text(uid as nat);
    assert(arguments.push(a).drop_last() =~= arguments);
    assert(arguments.push(e).drop_last() =~= arguments);
    assert(arguments.push(d).drop_last() =~= arguments);
    assert(arguments.push(m).drop_last() =~= arguments);
    assert(arguments.push(argument).drop_last() =~= arguments);
    lemma_begins(a, "sync="@);
    lemma_default_words();
    lemma_begins(e, "default="@);
    lemma_begins(d, "default="@);
    lemma_begins(m, "minimum_uid="@);
    lemma_values_differ(a);
    lemma_values_differ(e);
    lemma_values_differ(d);
    lemma_values_differ(m);
    text::law_decimal_round_trip(uid as nat, u32::MAX as nat);
    lemma_begins(argument, "sync="@);
    lemma_begins(argument, "default="@);
    lemma_begins(argument, "minimum_uid="@);
    lemma_argument_words();
    assert(m[0] == 'm');
}

proof fn lemma_default_words()
    ensures
        "default=enabled"@ == "default="@ + "enabled"@,
        "default=disabled"@ == "default="@ + "disabled"@,
        "enabled"@ != "disabled"@,
{
    reveal_strlit("default=");
    reveal_strlit("enabled");
    reveal_strlit("disabled");
    reveal_strlit("default=enabled");
    reveal_strlit("default=disabled");
    assert("default=enabled"@ =~= "default="@ + "enabled"@);
    assert("default=disabled"@ =~= "default="@ + "disabled"@);
    assert("enabled"@.len() != "disabled"@.len());
}

/// Whether an argument is one that the plugin documents.
pub open spec fn is_documented(argument: Seq<char>) -> bool {
    ||| begins(argument, "sync="@)
    ||| begins(argument, "conf="@)
    ||| argument == "default=enabled"@
    ||| argument == "default=disabled"@
    ||| argument == "spankstackcred=yes"@
    ||| argument == "enforced"@
    ||| argument == "force_file_ccache"@
    ||| argument == "no_cc_switch"@
    ||| exists|digits: Seq<char>|
        argument == #[trigger] ("minimum_uid="@ + digits) && text::parsed_number(
            digits,
            u32::MAX as nat,
        ) is Some
}

/// The arguments that are not documented are handed back, all of them, in their
/// order and as they are; and they leave the configuration as it was.
pub proof fn law_undocumented_arguments_are_handed_back(
    arguments: Seq<Seq<char>>,
    argument: Seq<char>,
)
    ensures
        parsed_arguments(Seq::empty()).1 == Seq::<Seq<char>>::empty(),
        parsed_arguments(arguments.push(argument)).1 == if is_documented(argument) {
            parsed_arguments(arguments).1
        } else {
            parsed_arguments(arguments).1.push(argument)
        },
        !is_documented(argument) ==> parsed_arguments(arguments.push(argument)).0
            == parsed_arguments(arguments).0,
        begins(argument, "conf="@) ==> parsed_arguments(arguments.push(argument)).0
            == parsed_arguments(arguments).0,
{
    assert(arguments.push(argument).drop_last() =~= arguments);
    lemma_begins(argument, "sync="@);
    lemma_begins(argument, "default="@);
    lemma_begins(argument, "minimum_uid="@);
    lemma_begins(argument, "conf="@);
    lemma_values_differ(argument);
    lemma_default_words();
    if argument == "spankstackcred=yes"@ || argument == "enforced"@ || argument
        == "force_file_ccache"@ || argument == "no_cc_switch"@ {
        lemma_flag_carries_no_value(argument);
    }
    if argument == "default=enabled"@ || argument == "default=disabled"@ {
        let value = if argument == "default=enabled"@ {
            "enabled"@
        } else {
            "disabled"@
        };
        assert("default="@ + value == argument);
    }
    if let Some(value) = text::stripped(argument, "minimum_uid="@) {
        assert(argument == "minimum_uid="@ + value);
    }
}

/// Arguments that Slurm hands over as strings with a NUL behind them are read
/// as the texts before the NUL, in their order, and missing ones are passed
/// over.
pub proof fn law_arguments_are_read_in_order(
    values: Seq<Option<Vec<u8>>>,
    last: Vec<u8>,
    argument: Seq<u8>,
    rest: Seq<u8>,
)
    requires
        !argument.contains(0u8),
        last@ == argument || last@ == argument.push(0u8) + rest,
    ensures
        present_arguments(Seq::empty()) == Seq::<Seq<char>>::empty(),
        present_arguments(values.push(None)) == present_arguments(values),
        present_arguments(values.push(Some(last))) == present_arguments(values).push(
            text::lossy_utf8(argument),
        ),
{
    assert(values.push(None).drop_last() =~= values);
    assert(values.push(Some(last)).drop_last() =~= values);
    assert forall|i: int| 0 <= i < argument.len() implies last@[i] != 0 by {
        assert(argument.contains(argument[i]));
    }
    text::lemma_before_nul(last@, argument.len() as int);
    assert(last@.take(argument.len() as int) =~= argument);
}

} // verus!
