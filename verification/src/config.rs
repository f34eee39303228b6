//! Per-application overrides and tool configuration: the table the capture
//! path consults to skip or augment a launch directive, keyed by an
//! application-identity hint.
use vstd::prelude::*;
use vstd::string::*;

verus! {

/// The per-application overrides.
#[derive(Clone, Debug, PartialEq, Eq)]
pub struct AppConfig {
    /// Skip this application entirely when capturing.
    pub ignore: bool,
    /// Drop the application's arguments from its directive.
    pub ignore_arguments: bool,
    /// Keep a single directive for the application.
    pub single_instance: bool,
    /// Arguments appended to the application's command.
    pub extra_args: String,
    /// Apply window rules when replaying the application.
    pub apply_windowrules: bool,
}

impl Default for AppConfig {
    /// Every override off, no extra arguments.
    fn default() -> (r: AppConfig)
        ensures
            !r.ignore,
            !r.ignore_arguments,
            !r.single_instance,
            r.extra_args@ == Seq::<char>::empty(),
            !r.apply_windowrules,
    {
        AppConfig {
            ignore: false,
            ignore_arguments: false,
            single_instance: false,
            extra_args: String::new(),
            apply_windowrules: false,
        }
    }
}

/// One named application's overrides.
#[derive(Clone, Debug)]
pub struct AppEntry {
    /// The application name the overrides are keyed by.
    pub name: String,
    /// The overrides themselves.
    pub config: AppConfig,
}

/// The tool's configuration: the save interval, the session store path and
/// the per-application override table.
#[derive(Clone, Debug)]
pub struct Config {
    /// Seconds between saves.
    pub save_interval: u64,
    /// Where sessions are stored.
    pub session_path: String,
    /// The per-application overrides, in file order.
    pub apps: Vec<AppEntry>,
}

impl Config {
    /// The configuration used when no configuration file is present: the
    /// default interval, the given store path, no overrides.
    pub fn with_defaults(session_path: String) -> (r: Config)
        ensures
            r.save_interval == 60,
            r.session_path@ == session_path@,
            r.apps@.len() == 0,
    {
        Config { save_interval: 60, session_path, apps: Vec::new() }
    }

    /// The overrides of the named application: the first entry carrying the
    /// name, if any.
    pub fn app_config(&self, name: &str) -> (r: Option<&AppConfig>)
        ensures
            match r {
                Some(c) => exists|k: int|
                    0 <= k < self.apps@.len() && (#[trigger] self.apps@[k]).name@ == name@
                        && c == &self.apps@[k].config && (forall|j: int|
                        0 <= j < k ==> (#[trigger] self.apps@[j]).name@ != name@),
                None => forall|j: int|
                    0 <= j < self.apps@.len() ==> (#[trigger] self.apps@[j]).name@ != name@,
            },
    {
        let mut i: usize = 0;
        while i < self.apps.len()
            invariant
                i <= self.apps@.len(),
                forall|j: int| 0 <= j < i ==> (#[trigger] self.apps@[j]).name@ != name@,
            decreases self.apps@.len() - i,
        {
            if crate::strutil::str_eq(self.apps[i].name.as_str(), name) {
                return Some(&self.apps[i].config);
            }
            i = i + 1;
        }
        None
    }
}

} // verus!
