use vstd::prelude::*;

use std::path::PathBuf;

use crate::config::{
    config_error, configs_equal, copy_config, normalize_config_spec, template_error,
    validation_message, Config, ConfigView, GestureTemplate, ValidationErrorView,
};
use crate::text::{chars_of, decimal, push_chars, push_decimal, string_from};

verus! {

/// `std::path::PathBuf`, carried through as an opaque value.
#[verifier::external_type_specification]
#[verifier::external_body]
pub struct ExPathBuf(PathBuf);

/// Where the settings files live.
pub struct ConfigManager {
    config_dir: PathBuf,
}

impl ConfigManager {
    /// The directory this manager keeps.
    pub closed spec fn dir(&self) -> PathBuf {
        self.config_dir
    }

    /// A manager for the given settings directory (the directory itself is
    /// found and created by the program).
    pub fn with_config_dir(config_dir: PathBuf) -> (m: Self)
        ensures
            m.dir() == config_dir,
    {
        ConfigManager { config_dir }
    }

    /// The settings directory.
    pub fn config_dir(&self) -> (r: &PathBuf)
        ensures
            *r == self.dir(),
    {
        &self.config_dir
    }
}

/// A settings export: the configuration and the gesture templates.
#[allow(non_snake_case)]
pub struct SettingsBundle<P> {
    pub formatVersion: u32,
    pub appName: String,
    pub exportedAt: String,
    pub config: Config,
    pub gestures: Vec<GestureTemplate<P>>,
}

fn append_str(s: &mut String, t: &str)
    ensures
        final(s)@ == old(s)@ + t@,
{
    let c = chars_of(t);
    push_chars(s, c.as_slice());
}

fn append_string(s: &mut String, t: &String)
    ensures
        final(s)@ == old(s)@ + t@,
{
    let c = chars_of(t.as_str());
    push_chars(s, c.as_slice());
}

// ---------------------------------------------------------------------------
// Gesture template lists
// ---------------------------------------------------------------------------

/// The first invalid template and its index.
pub open spec fn first_template_error<P>(gs: Seq<GestureTemplate<P>>) -> Option<(int, ValidationErrorView)>
    decreases gs.len(),
{
    if gs.len() == 0 {
        None
    } else {
        match first_template_error(gs.drop_last()) {
            Some(e) => Some(e),
            None => match template_error(gs.last()) {
                Some(e) => Some((gs.len() - 1, e)),
                None => None,
            },
        }
    }
}

pub proof fn lemma_first_template_error_prefix<P>(s: Seq<GestureTemplate<P>>, i: int)
    requires
        0 <= i <= s.len(),
        first_template_error(s.take(i)) is Some,
    ensures
        first_template_error(s) == first_template_error(s.take(i)),
    decreases s.len(),
{
    if i == s.len() {
        assert(s.take(i) =~= s);
    } else {
        assert(s.drop_last().take(i) =~= s.take(i));
        lemma_first_template_error_prefix(s.drop_last(), i);
    }
}

/// The message for an invalid template: `<prefix><index><infix><problem>`.
pub open spec fn template_list_message<P>(gs: Seq<GestureTemplate<P>>, prefix: Seq<char>, infix: Seq<char>) -> Seq<char> {
    match first_template_error(gs) {
        Some((i, e)) => prefix + decimal(i as nat) + infix + validation_message(e),
        None => Seq::empty(),
    }
}

/// Checks every template in order; the first invalid one is reported with its
/// index, between `prefix` and `infix`.
pub fn validate_gesture_list<P>(gestures: &Vec<GestureTemplate<P>>, prefix: &str, infix: &str) -> (r: Result<(), String>)
    ensures
        match r {
            Ok(()) => first_template_error(gestures@) is None,
            Err(m) => first_template_error(gestures@) is Some && m@ == template_list_message(
                gestures@,
                prefix@,
                infix@,
            ),
        },
{
    let n = gestures.len();
    let mut i: usize = 0;
    while i < n
        invariant
            i <= n,
            n == gestures@.len(),
            first_template_error(gestures@.take(i as int)) is None,
        decreases n - i,
    {
        assert(gestures@.take(i + 1).drop_last() =~= gestures@.take(i as int));
        assert(gestures@.take(i + 1).last() == gestures@[i as int]);
        match gestures[i].validate() {
            Ok(()) => {},
            Err(e) => {
                proof {
                    lemma_first_template_error_prefix(gestures@, i + 1);
                }
                let mut m = string_from(prefix);
                push_decimal(&mut m, i as u128);
                append_str(&mut m, infix);
                let em = e.message();
                append_string(&mut m, &em);
                return Err(m);
            },
        }
        i = i + 1;
    }
    assert(gestures@.take(n as int) =~= gestures@);
    Ok(())
}

// ---------------------------------------------------------------------------
// Configurations on their way to and from disk
// ---------------------------------------------------------------------------

/// A configuration checked for writing: normalized, then validated; a problem
/// is reported as `<prefix><problem>`.
pub fn checked_config(config: &Config, prefix: &str) -> (r: Result<Config, String>)
    ensures
        match r {
            Ok(c) => c@ == normalize_config_spec(config@) && config_error(c@) is None,
            Err(m) => config_error(normalize_config_spec(config@)) is Some && m@ == prefix@
                + validation_message(config_error(normalize_config_spec(config@))->0),
        },
{
    let normalized = copy_config(config).normalized();
    match normalized.validate() {
        Ok(()) => Ok(normalized),
        Err(e) => {
            let mut m = string_from(prefix);
            let em = e.message();
            append_string(&mut m, &em);
            Err(m)
        },
    }
}

/// A configuration as read from disk: normalized and validated (a problem is
/// reported as `config.json validation error: <problem>`), together with
/// whether normalization changed it, in which case the file is to be
/// rewritten.
pub fn checked_loaded_config(parsed: &Config) -> (r: Result<(Config, bool), String>)
    ensures
        match r {
            Ok((c, changed)) => c@ == normalize_config_spec(parsed@) && config_error(c@) is None
                && changed == (c@ != parsed@),
            Err(m) => config_error(normalize_config_spec(parsed@)) is Some && m@
                == "config.json validation error: "@ + validation_message(
                config_error(normalize_config_spec(parsed@))->0,
            ),
        },
{
    match checked_config(parsed, "config.json validation error: ") {
        Ok(c) => {
            let changed = !configs_equal(&c, parsed);
            Ok((c, changed))
        },
        Err(m) => Err(m),
    }
}

/// What importing a settings bundle writes: the bundle's templates and its
/// configuration, normalized.  A bundle with format version 0, an invalid
/// template or an invalid configuration is refused.
pub open spec fn import_error<P>(b: SettingsBundle<P>) -> Option<Seq<char>> {
    if b.formatVersion == 0 {
        Some("Unsupported settings bundle formatVersion"@)
    } else if first_template_error(b.gestures@) is Some {
        Some(template_list_message(b.gestures@, "settings bundle gestures["@, "] validation error: "@))
    } else if config_error(normalize_config_spec(b.config@)) is Some {
        Some(
            "settings bundle config validation error: "@ + validation_message(
                config_error(normalize_config_spec(b.config@))->0,
            ),
        )
    } else {
        None
    }
}

/// Checks a settings bundle before import and hands back what is to be
/// written.
pub fn prepare_settings_import<P>(bundle: SettingsBundle<P>) -> (r: Result<(Config, Vec<GestureTemplate<P>>), String>)
    ensures
        match r {
            Ok((c, gs)) => import_error(bundle) is None && c@ == normalize_config_spec(bundle.config@)
                && gs == bundle.gestures,
            Err(m) => import_error(bundle) == Some(m@),
        },
{
    if bundle.formatVersion == 0 {
        return Err(string_from("Unsupported settings bundle formatVersion"));
    }
    match validate_gesture_list(&bundle.gestures, "settings bundle gestures[", "] validation error: ") {
        Ok(()) => {},
        Err(m) => {
            return Err(m);
        },
    }
    match checked_config(&bundle.config, "settings bundle config validation error: ") {
        Ok(c) => Ok((c, bundle.gestures)),
        Err(m) => Err(m),
    }
}

} // verus!

verus! {

/// A configuration that was accepted for saving loads back as it was saved:
/// the configuration `checked_config` writes (the normalized input, when it
/// validates) is left unchanged by the normalization `checked_loaded_config`
/// applies, still validates, and so is read back unchanged and not flagged
/// for rewriting.  A non-ASCII slot that normalization uppercases must be one
/// that uppercasing settles, as for `law_normalize_config_idempotent`.
pub proof fn law_saved_config_loads_back(config: ConfigView)
    requires
        forall|i: int|
            0 <= i < config.actions.len() && !crate::text::all_ascii(
                crate::config::slot_before_uppercase(#[trigger] config.actions[i]),
            ) ==> crate::config::uppercase_settles(
                crate::config::slot_before_uppercase(config.actions[i]),
            ),
        config_error(normalize_config_spec(config)) is None,
    ensures
        normalize_config_spec(normalize_config_spec(config)) == normalize_config_spec(config),
        config_error(normalize_config_spec(normalize_config_spec(config))) is None,
{
    crate::config::law_normalize_config_idempotent(config);
}

} // verus!
