//! What the program is told on its command line, once it has been read.

pub mod config;
pub mod number;
pub mod util;

use crate::input::config::{
    defect, rule_defect, same_text, settings_match, ArgumentError, Arguments,
    GlobalConfig,
};
use vstd::prelude::*;

verus! {

/// The data file, the configuration file and the subcommand that were given,
/// in this order; `None` exactly when one of the three is missing.
pub fn commands(data: Option<String>, config: Option<String>, subcommand: Option<String>) -> (r:
    Option<(String, String, String)>)
    ensures
        r.is_some() <==> data.is_some() && config.is_some() && subcommand.is_some(),
        r.is_some() ==> r.unwrap() == (data.unwrap(), config.unwrap(), subcommand.unwrap()),
{
    match (data, config, subcommand) {
        (Some(d), Some(c), Some(s)) => Some((d, c, s)),
        _ => None,
    }
}

/// The settings that the arguments ask for, once they have been held to the
/// rules of the command line; or the first rule that they break, or else the
/// first of them that cannot be understood.
pub fn read_arguments(args: &Arguments) -> (r: Result<GlobalConfig, ArgumentError>)
    ensures
        match r {
            Ok(config) => rule_defect(*args).is_none() && defect(*args).is_none()
                && settings_match(config, *args),
            Err(e) => if rule_defect(*args).is_some() {
                rule_defect(*args) == Some(e)
            } else {
                defect(*args) == Some(e)
            },
        },
{
    match &args.verbosity {
        Some(word) => {
            let w = word.as_str();
            if !(same_text(w, "debug") || same_text(w, "info") || same_text(w, "error")
                || same_text(w, "off")) {
                return Err(ArgumentError::Verbosity);
            }
        },
        None => {},
    }
    let kind = args.datatype.as_str();
    if !(same_text(kind, "flower") || same_text(kind, "mnist")) {
        return Err(ArgumentError::DataType);
    }
    match &args.learn {
        Some(learn) => {
            if learn.topology.len() < 3 {
                return Err(ArgumentError::TopologyLength { actual: learn.topology.len() });
            }
        },
        None => {},
    }
    GlobalConfig::from_arguments(args)
}

} // verus!
