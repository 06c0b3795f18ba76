//! Substitution of `${VAR}` placeholders in property files with values from
//! keyfiles (`VAR=VALUE` lines) or from environment variables.
pub mod assoc;
pub mod cli;
pub mod keyfile;
pub mod keys;
pub mod laws;
pub mod options;
pub mod order;
pub mod placeholder;
pub mod report;
pub mod substitute;
pub mod text;

pub use cli::{
    decide, get_arg_parser, get_prop_and_result_filename, get_props_first, get_shadow,
    version_requested, ApplicationOptions,
    ParseOutcome, ParseResult, PropAndResultFilenames,
};
pub use keyfile::{
    extract_keys, insert_if_not_exist, parse_key_line, read_keyfiles_to_dict, KeyConflict,
    KeyfileError, KeyfilesOutcome, ShadowNotice,
};
pub use keys::{insert_key, KeysAndSources, KeysFromFiles, ValueAndSource};
pub use options::{
    ArgError, HasArg, Occur, OptionManagement, OptionsAndFlags, ParsingStyle,
};
pub use report::{result_report, Report};
pub use substitute::{
    env_or_prop, no_property, placeholder_keys, process, replace_var, usable_lines, EnvLookup, EnvOverride,
    UsedKeys,
};
