//! Which settings are in force after an attempt to load them.

use vstd::prelude::*;

verus! {

/// The version of the settings' schema, under which they are stored.
pub const VERSION: u64 = 1;

/// The key under which all settings are stored.
pub const KEY: &'static str = "settings";

/// Why the settings could not be loaded.
#[derive(Debug)]
pub enum LoadError {
    /// The store of settings could not be opened, for the reason given.
    Open(String),
    /// The key could not be read, for the reason given; `not_found` says
    /// whether that is because it does not exist.
    GetKey { not_found: bool, why: String },
    /// The settings could not be had for any other reason, such as that they
    /// do not parse.
    Get(String),
}

/// The settings in force, and a message to report where there is one.
#[derive(Debug)]
pub struct Loaded<C> {
    pub config: C,
    pub report: Option<String>,
}

impl LoadError {
    /// What is reported. That there are no settings yet is no error.
    pub open spec fn report(self) -> Option<Seq<char>> {
        match self {
            LoadError::Open(why) => Some(
                "cosmic-switch-less: failed to open config helper: "@ + why@,
            ),
            LoadError::GetKey { not_found: true, .. } => None,
            LoadError::GetKey { not_found: false, why } => Some(
                "cosmic-switch-less: config load error: "@ + why@,
            ),
            LoadError::Get(why) => Some("cosmic-switch-less: config load error: "@ + why@),
        }
    }
}

/// The text that a report holds.
pub open spec fn report_text(report: Option<String>) -> Option<Seq<char>> {
    match report {
        Some(text) => Some(text@),
        None => None,
    }
}

/// The settings that are in force after an attempt to load them: those loaded,
/// or else the default ones. Every failure is reported but that there are no
/// settings yet.
pub fn resolve<C>(loaded: Result<C, LoadError>, default: C) -> (r: Loaded<C>)
    ensures
        match loaded {
            Ok(config) => r.config == config && r.report is None,
            Err(why) => r.config == default && report_text(r.report) == why.report(),
        },
{
    match loaded {
        Ok(config) => Loaded { config, report: None },
        Err(LoadError::Open(why)) => {
            let mut text = "cosmic-switch-less: failed to open config helper: ".to_owned();
            text.append(why.as_str());
            Loaded { config: default, report: Some(text) }
        },
        Err(LoadError::GetKey { not_found, why }) => if not_found {
            Loaded { config: default, report: None }
        } else {
            Loaded { config: default, report: Some(load_report(why)) }
        },
        Err(LoadError::Get(why)) => Loaded { config: default, report: Some(load_report(why)) },
    }
}

/// The report of a failure to read or parse the settings.
fn load_report(why: String) -> (r: String)
    ensures
        r@ == "cosmic-switch-less: config load error: "@ + why@,
{
    let mut text = "cosmic-switch-less: config load error: ".to_owned();
    text.append(why.as_str());
    text
}

} // verus!
