//! What one search is asked to do: the query, the file, and the mode.

use vstd::prelude::*;
use vstd::string::*;

verus! {

/// A value that a search cannot do without.
#[derive(Debug, Clone, Copy, PartialEq, Eq, Structural)]
pub enum Field {
    /// The text to look for.
    Query,
    /// The path of the file to look in.
    FilePath,
}

impl Field {
    /// The name of the field, as it is shown to the user.
    pub open spec fn spec_name(self) -> Seq<char> {
        match self {
            Field::Query => "query"@,
            Field::FilePath => "file_path"@,
        }
    }

    /// The name of the field, as it is shown to the user.
    pub fn name(&self) -> (name: &'static str)
        ensures
            name@ == self.spec_name(),
    {
        match self {
            Field::Query => "query",
            Field::FilePath => "file_path",
        }
    }
}

/// Why no configuration could be built.
#[derive(Debug, Clone, Copy, PartialEq, Eq, Structural)]
pub enum ConfigError {
    /// The input holds no value for this field.
    MissingArgument(Field),
}

/// The settings of one search.
///
/// `case_insensitive` is the one switch for the mode: `false`, the default of
/// every front end, compares characters exactly; `true` compares lowercase
/// forms.
#[derive(Debug, Clone, PartialEq, Eq)]
pub struct Config {
    /// The text to look for.
    pub query: String,
    /// The path of the file to look in.
    pub file_path: String,
    /// Whether letters that differ only in case count as equal.
    pub case_insensitive: bool,
}

/// A configuration as plain values.
pub struct ConfigView {
    pub query: Seq<char>,
    pub file_path: Seq<char>,
    pub case_insensitive: bool,
}

impl View for Config {
    type V = ConfigView;

    open spec fn view(&self) -> ConfigView {
        ConfigView {
            query: self.query@,
            file_path: self.file_path@,
            case_insensitive: self.case_insensitive,
        }
    }
}

impl Config {
    /// Builds the configuration from the positional values of the input, in
    /// their order and without the program's name, and from the mode switch.
    ///
    /// The first value is the query and the second the file path; further
    /// values are not looked at. Where one of the two is absent, the error names
    /// the first that is, and no configuration is returned. An environment
    /// variable or a flag that selects the mode is read by the caller and
    /// handed in as `case_insensitive`.
    pub fn build(values: &[String], case_insensitive: bool) -> (built: Result<Config, ConfigError>)
        ensures
            built is Ok <==> values@.len() >= 2,
            built matches Ok(config) ==> config@ == (ConfigView {
                query: values@[0]@,
                file_path: values@[1]@,
                case_insensitive,
            }),
            built matches Err(error) ==> error == ConfigError::MissingArgument(
                if values@.len() == 0 {
                    Field::Query
                } else {
                    Field::FilePath
                },
            ),
    {
        if values.len() == 0 {
            return Err(ConfigError::MissingArgument(Field::Query));
        }
        if values.len() == 1 {
            return Err(ConfigError::MissingArgument(Field::FilePath));
        }
        Ok(Config { query: values[0].clone(), file_path: values[1].clone(), case_insensitive })
    }
}

} // verus!
