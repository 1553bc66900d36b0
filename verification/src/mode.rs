//! The operating mode of the SPANK plugin.
use crate::plugin::PluginConfig;
use crate::spank::{Spank, SpankView};
use crate::text::{self, c_text, str_eq};
use vstd::prelude::*;

verus! {

/// AUKS plugin operating mode.
#[derive(Debug, Clone, Copy, PartialEq, Eq, Structural)]
pub enum Mode {
    /// Do not forward credentials.
    Disabled,
    /// Forward credentials.
    Enabled,
    /// Forward credentials without further renewal.
    Done,
}

/// The environment variable that carries the option to the job.
pub const OPTION_VARIABLE: &'static str = "SLURM_SPANK_AUKS";

/// The mode that an option value stands for.
pub open spec fn option_mode(value: Seq<char>) -> Option<Mode> {
    if value == "yes"@ {
        Some(Mode::Enabled)
    } else if value == "no"@ {
        Some(Mode::Disabled)
    } else if value == "done"@ {
        Some(Mode::Done)
    } else {
        None
    }
}

/// Parses an option value.
pub fn parse_option(value: &str) -> (mode: Option<Mode>)
    ensures
        mode == option_mode(value@),
{
    if str_eq(value, "yes") {
        Some(Mode::Enabled)
    } else if str_eq(value, "no") {
        Some(Mode::Disabled)
    } else if str_eq(value, "done") {
        Some(Mode::Done)
    } else {
        None
    }
}

/// The mode of a plugin: the option comes first, then the environment, then the
/// configuration. In the job an unknown environment value disables the plugin;
/// elsewhere it counts for nothing.
pub open spec fn decided(
    remote: bool,
    option: Option<Mode>,
    env: Option<Seq<char>>,
    default: Mode,
) -> Mode {
    match option {
        Some(option) => option,
        None => match env {
            None => default,
            Some(value) => match option_mode(value) {
                Some(mode) => mode,
                None => if remote {
                    Mode::Disabled
                } else {
                    default
                },
            },
        },
    }
}

/// The text of an optional string slice.
pub open spec fn optional_str(text: Option<&str>) -> Option<Seq<char>> {
    match text {
        Some(text) => Some(text@),
        None => None,
    }
}

/// Decides the mode using option, environment, and configuration precedence.
pub fn decide(remote: bool, option: Option<Mode>, env: Option<&str>, default: Mode) -> (mode: Mode)
    ensures
        mode == decided(remote, option, optional_str(env), default),
{
    if let Some(option) = option {
        return option;
    }
    match env {
        None => default,
        Some(value) => match parse_option(value) {
            Some(mode) => mode,
            None => if remote {
                Mode::Disabled
            } else {
                default
            },
        },
    }
}

/// The environment that counts: that of the job in the job, and that of the
/// process elsewhere.
pub open spec fn relevant_env(
    spank: SpankView,
    job_env: Option<Seq<char>>,
    process_env: Option<Seq<char>>,
) -> Option<Seq<char>> {
    if spank.remote != 0 {
        job_env
    } else {
        process_env
    }
}

/// Decides a mode from a SPANK handle and plugin configuration. `job_env` and
/// `process_env` are what the two environments hold under
/// [`OPTION_VARIABLE`].
pub fn decide_for_spank(
    spank: Spank,
    option: Option<Mode>,
    job_env: Option<&str>,
    process_env: Option<&str>,
    config: &PluginConfig,
) -> (mode: Mode)
    ensures
        mode == decided(
            spank@.remote != 0,
            option,
            relevant_env(spank@, optional_str(job_env), optional_str(process_env)),
            config@.default_mode,
        ),
{
    let remote = spank.remote();
    let env = if remote {
        job_env
    } else {
        process_env
    };
    decide(remote, option, env, config.default_mode)
}

/// What the option callback of the plugin does.
#[derive(Debug, PartialEq, Eq)]
pub enum OptionOutcome {
    /// The option came without a value: refuse it.
    Missing,
    /// The option has an unknown value: refuse it and report the value.
    Invalid(String),
    /// The option is accepted.
    Accepted {
        /// Mode that it selects.
        mode: Mode,
        /// Value to export to the environment of the process, if any.
        exported: Option<String>,
    },
}

/// What the option callback does, as a value.
pub enum OptionOutcomeView {
    Missing,
    Invalid(Seq<char>),
    Accepted { mode: Mode, exported: Option<Seq<char>> },
}

impl View for OptionOutcome {
    type V = OptionOutcomeView;

    open spec fn view(&self) -> OptionOutcomeView {
        match self {
            OptionOutcome::Missing => OptionOutcomeView::Missing,
            OptionOutcome::Invalid(value) => OptionOutcomeView::Invalid(value@),
            OptionOutcome::Accepted { mode, exported } => OptionOutcomeView::Accepted {
                mode: *mode,
                exported: crate::config::optional_text(*exported),
            },
        }
    }
}

/// What becomes of an option with a given NUL-terminated argument. Outside the
/// job an accepted value is exported.
pub open spec fn option_outcome(argument: Option<Seq<u8>>, remote: i32) -> OptionOutcomeView {
    match argument {
        None => OptionOutcomeView::Missing,
        Some(bytes) => {
            let value = text::lossy_utf8(text::before_nul(bytes));
            match option_mode(value) {
                None => OptionOutcomeView::Invalid(value),
                Some(mode) => OptionOutcomeView::Accepted {
                    mode,
                    exported: if remote == 0 {
                        Some(value)
                    } else {
                        None
                    },
                },
            }
        },
    }
}

/// Handles the option of the plugin.
pub fn option_callback(argument: &Option<Vec<u8>>, remote: i32) -> (outcome: OptionOutcome)
    ensures
        outcome@ == option_outcome(crate::krb5::optional_bytes(*argument), remote),
{
    match argument {
        None => OptionOutcome::Missing,
        Some(bytes) => {
            let value = c_text(bytes.as_slice());
            match parse_option(value.as_str()) {
                None => OptionOutcome::Invalid(value),
                Some(mode) => OptionOutcome::Accepted {
                    mode,
                    exported: if remote == 0 {
                        Some(value)
                    } else {
                        None
                    },
                },
            }
        },
    }
}

impl OptionOutcome {
    /// The status that the callback returns.
    pub fn status(&self) -> (status: i32)
        ensures
            status == if self@ is Accepted {
                0i32
            } else {
                -1i32
            },
    {
        match self {
            OptionOutcome::Accepted { .. } => 0,
            _ => -1,
        }
    }
}

/// An option decides the mode alone, and without one the configuration decides
/// only where the environment is silent or, outside the job, unknown.
pub proof fn law_option_precedes_environment(
    remote: bool,
    mode: Mode,
    env: Option<Seq<char>>,
    default: Mode,
)
    ensures
        decided(remote, Some(mode), env, default) == mode,
        decided(remote, None, None, default) == default,
        env matches Some(value) && option_mode(value) is Some ==> decided(
            remote,
            None,
            env,
            default,
        ) == option_mode(env->Some_0)->Some_0,
        env matches Some(value) && option_mode(value) is None ==> decided(
            true,
            None,
            env,
            default,
        ) == Mode::Disabled && decided(false, None, env, default) == default,
{
}

/// What the callback exports selects, outside the job, the mode that it
/// accepted.
pub proof fn law_exported_option_selects_mode(argument: Seq<u8>, default: Mode)
    ensures
        option_outcome(Some(argument), 0) matches OptionOutcomeView::Accepted {
            mode,
            exported,
        } ==> exported is Some && decided(true, None, exported, default) == mode && decided(
            false,
            None,
            exported,
            default,
        ) == mode,
{
}

/// An option says `yes`, `no` or `done`, and nothing else: `yes` forwards
/// credentials, `no` does not, and `done` forwards them without renewal.
pub proof fn law_words_of_the_option(value: Seq<char>)
    ensures
        option_mode("yes"@) == Some(Mode::Enabled),
        option_mode("no"@) == Some(Mode::Disabled),
        option_mode("done"@) == Some(Mode::Done),
        option_mode(value) is Some ==> value == "yes"@ || value == "no"@ || value == "done"@,
{
    reveal_strlit("yes");
    reveal_strlit("no");
    reveal_strlit("done");
    assert("yes"@.len() == 3 && "no"@.len() == 2 && "done"@.len() == 4);
}

/// The job's environment counts in the job and that of the process elsewhere;
/// the other one never does.
pub proof fn law_environment_that_counts(
    spank: SpankView,
    job_env: Option<Seq<char>>,
    process_env: Option<Seq<char>>,
)
    ensures
        spank.remote != 0 ==> relevant_env(spank, job_env, process_env) == job_env,
        spank.remote == 0 ==> relevant_env(spank, job_env, process_env) == process_env,
{
}

/// The option is read up to its NUL. Without a value it is refused; with an
/// unknown one it is refused and the value is reported; and otherwise it selects
/// its mode and is exported, as it is, outside the job alone.
pub proof fn law_option_outcomes(buffer: Seq<u8>, bytes: Seq<u8>, remote: i32)
    requires
        crate::krb5::holds_string(buffer, bytes),
    ensures
        option_outcome(None, remote) is Missing,
        ({
            let value = text::lossy_utf8(bytes);
            let outcome = option_outcome(Some(buffer), remote);
            let exported = if remote == 0 {
                Some(value)
            } else {
                None
            };
            &&& value == "yes"@ ==> outcome == (OptionOutcomeView::Accepted {
                mode: Mode::Enabled,
                exported,
            })
            &&& value == "no"@ ==> outcome == (OptionOutcomeView::Accepted {
                mode: Mode::Disabled,
                exported,
            })
            &&& value == "done"@ ==> outcome == (OptionOutcomeView::Accepted {
                mode: Mode::Done,
                exported,
            })
            &&& value != "yes"@ && value != "no"@ && value != "done"@ ==> outcome
                == OptionOutcomeView::Invalid(value)
        }),
{
    crate::krb5::lemma_holds_string(buffer, bytes);
    law_words_of_the_option(text::lossy_utf8(bytes));
}

/// The mode that is decided is the option's, else that of the words in the
/// environment, else the configured one; words that mean nothing disable the
/// plugin in the job.
pub proof fn law_mode_by_words(remote: bool, word: Seq<char>, default: Mode)
    ensures
        decided(remote, None, Some("yes"@), default) == Mode::Enabled,
        decided(remote, None, Some("no"@), default) == Mode::Disabled,
        decided(remote, None, Some("done"@), default) == Mode::Done,
        decided(remote, None, None, default) == default,
        word != "yes"@ && word != "no"@ && word != "done"@ ==> decided(
            true,
            None,
            Some(word),
            default,
        ) == Mode::Disabled && decided(false, None, Some(word), default) == default,
{
    law_words_of_the_option(word);
}

} // verus!
