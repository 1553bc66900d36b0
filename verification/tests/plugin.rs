//! The SPANK plugin: its configuration, its mode and what it reads from Slurm.
use auks::mode::{decide, decide_for_spank, option_callback, parse_option, Mode, OptionOutcome};
use auks::plugin::{arguments, parse, PluginConfig};
use auks::spank::{
    c_bytes, getenv, setenv, status_result, ItemI32, ItemU32, Spank, SpankContext, SpankItem,
};

#[test]
fn parses_supported_arguments_and_reports_unknown() {
    let args = [
        "conf=/conf/auks.conf",
        "default=enabled",
        "sync=wait",
        "enforced",
        "minimum_uid=1000",
        "hostcredcache=/tmp/cc",
        "bogus",
    ]
    .into_iter()
    .map(str::to_owned)
    .collect::<Vec<_>>();
    let (config, unknown) = parse(&args);
    assert_eq!(config.default_mode, Mode::Enabled);
    assert_eq!(config.sync.as_deref(), Some("wait"));
    assert_eq!(config.minimum_uid, Some(1000));
    assert_eq!(unknown, ["hostcredcache=/tmp/cc", "bogus"]);
}

#[test]
fn option_precedes_environment() {
    assert_eq!(
        decide(true, Some(Mode::Disabled), Some("yes"), Mode::Enabled),
        Mode::Disabled
    );
    assert_eq!(
        decide(true, None, Some("yes"), Mode::Disabled),
        Mode::Enabled
    );
    assert_eq!(
        decide(true, None, Some("unexpected"), Mode::Enabled),
        Mode::Disabled
    );
    assert_eq!(
        decide(false, None, Some("done"), Mode::Disabled),
        Mode::Done
    );
}

fn strings(values: &[&str]) -> Vec<String> {
    values.iter().map(|value| (*value).to_owned()).collect()
}

#[test]
fn no_arguments_give_the_default() {
    let (config, unknown) = parse(&[]);
    assert_eq!(config, PluginConfig::default());
    assert_eq!(config.default_mode, Mode::Disabled);
    assert!(unknown.is_empty());
}

#[test]
fn later_arguments_win_and_bad_values_change_nothing() {
    let (config, unknown) = parse(&strings(&[
        "default=enabled",
        "default=sometimes",
        "minimum_uid=5",
        "minimum_uid=-5",
        "spankstackcred=yes",
        "spankstackcred=no",
        "force_file_ccache",
        "no_cc_switch",
        "sync=",
        "conf",
    ]));
    assert_eq!(config.default_mode, Mode::Enabled);
    assert_eq!(config.minimum_uid, Some(5));
    assert!(config.spankstackcred);
    assert!(config.force_file_ccache);
    assert!(config.no_cc_switch);
    assert!(!config.enforced);
    assert_eq!(config.sync.as_deref(), Some(""));
    assert_eq!(
        unknown,
        ["default=sometimes", "minimum_uid=-5", "spankstackcred=no", "conf"]
    );
    let (config, _) = parse(&strings(&["default=enabled", "default=disabled"]));
    assert_eq!(config.default_mode, Mode::Disabled);
    assert_eq!(config.clone(), config);
}

#[test]
fn arguments_are_c_strings() {
    let values = vec![
        Some(b"enforced\0junk".to_vec()),
        None,
        Some(b"caf\xc3\xa9\0".to_vec()),
        Some(b"bad\xff\0".to_vec()),
    ];
    assert_eq!(arguments(&values), ["enforced", "caf\u{e9}", "bad\u{fffd}"]);
}

#[test]
fn option_values_are_known() {
    assert_eq!(parse_option("yes"), Some(Mode::Enabled));
    assert_eq!(parse_option("no"), Some(Mode::Disabled));
    assert_eq!(parse_option("done"), Some(Mode::Done));
    assert_eq!(parse_option("Yes"), None);
    assert_eq!(parse_option(""), None);
}

#[test]
fn unknown_environment_counts_in_the_job_only() {
    assert_eq!(decide(true, None, Some("no"), Mode::Enabled), Mode::Disabled);
    assert_eq!(decide(true, None, None, Mode::Done), Mode::Done);
    assert_eq!(decide(false, None, Some("maybe"), Mode::Done), Mode::Done);
    assert_eq!(decide(false, None, None, Mode::Enabled), Mode::Enabled);
}

fn handle(remote: i32) -> Spank {
    Spank::from_answers(
        remote,
        SpankContext::S_CTX_REMOTE,
        ItemU32 {
            status: 0,
            value: 1000,
        },
        ItemU32 {
            status: 0,
            value: 100,
        },
        ItemU32 {
            status: 0,
            value: 77,
        },
        ItemU32 {
            status: 3001,
            value: 0,
        },
        ItemI32 {
            status: 0,
            value: -9,
        },
    )
}

#[test]
fn handles_answer_with_values_or_statuses() {
    let spank = handle(1);
    assert!(spank.remote());
    assert_eq!(spank.context(), SpankContext::S_CTX_REMOTE);
    assert_eq!(spank.job_uid(), Ok(1000));
    assert_eq!(spank.job_gid(), Ok(100));
    assert_eq!(spank.job_id(), Ok(77));
    assert_eq!(spank.local_task_count(), Err(3001));
    assert_eq!(spank.task_exit_status(), Ok(-9));
    assert!(!handle(0).remote());
    assert_eq!(SpankItem::S_TASK_EXIT_STATUS as i32, 13);
    assert_eq!(SpankContext::from_code(2), SpankContext::S_CTX_REMOTE);
    assert_eq!(SpankContext::from_code(5), SpankContext::S_CTX_JOB_SCRIPT);
    assert_eq!(SpankContext::from_code(9), SpankContext::S_CTX_ERROR);
}

#[test]
fn the_environment_of_the_right_side_counts() {
    let config = PluginConfig::default();
    let mode = |remote, option| {
        decide_for_spank(handle(remote), option, Some("yes"), Some("done"), &config)
    };
    assert_eq!(mode(1, None), Mode::Enabled);
    assert_eq!(mode(0, None), Mode::Done);
    assert_eq!(mode(0, Some(Mode::Enabled)), Mode::Enabled);
}

#[test]
fn the_option_callback_accepts_known_values() {
    let local = option_callback(&Some(b"done\0".to_vec()), 0);
    assert_eq!(local.status(), 0);
    assert_eq!(
        local,
        OptionOutcome::Accepted {
            mode: Mode::Done,
            exported: Some("done".to_owned())
        }
    );
    assert_eq!(
        option_callback(&Some(b"yes\0".to_vec()), 1),
        OptionOutcome::Accepted {
            mode: Mode::Enabled,
            exported: None
        }
    );
    let bad = option_callback(&Some(b"ye\xffs\0".to_vec()), 0);
    assert_eq!(bad.status(), -1);
    assert_eq!(bad, OptionOutcome::Invalid("ye\u{fffd}s".to_owned()));
    assert_eq!(option_callback(&None, 0), OptionOutcome::Missing);
    assert_eq!(option_callback(&None, 0).status(), -1);
}

#[test]
fn job_environment_is_read_and_written_as_c_strings() {
    assert_eq!(getenv(0, b"value\0\0\0"), Some("value".to_owned()));
    assert_eq!(getenv(0, b"v\xfe\0"), Some("v\u{fffd}".to_owned()));
    assert_eq!(getenv(3000, b"value\0"), None);
    assert_eq!(
        setenv("NAME", "x"),
        Ok((b"NAME\0".to_vec(), b"x\0".to_vec()))
    );
    assert_eq!(setenv("NA\0ME", "x"), Err(-1));
    assert_eq!(setenv("NAME", "\0"), Err(-1));
    assert_eq!(c_bytes("a\0b"), None);
    assert_eq!(status_result(0), Ok(()));
    assert_eq!(status_result(3003), Err(3003));
}

#[test]
fn what_is_set_is_read_back() {
    let (_, mut buffer) = setenv("NAME", "caf\u{e9}").expect("strings");
    buffer.extend_from_slice(b"junk");
    assert_eq!(getenv(0, &buffer), Some("caf\u{e9}".to_owned()));
}
