//! The launch configuration: reading the adapter's settings out of the
//! `additionalData` object of a launch request.
//!
//! The wire value arrives as JSON; the library sees it as a `ConfigValue`
//! tree of plain values and validates it here, naming the offending field
//! when a required entry is missing or has the wrong type.

use vstd::prelude::*;

use crate::text::str_eq;

verus! {

/// A configuration value: the JSON shapes the launch request can carry.
pub enum ConfigValue {
    Null,
    Bool(bool),
    Num(i64),
    Str(String),
    Array(Vec<ConfigValue>),
    Object(Vec<(String, ConfigValue)>),
}

/// The first value stored under a key, if any.
pub open spec fn lookup_spec(pairs: Seq<(String, ConfigValue)>, key: Seq<char>) -> Option<
    ConfigValue,
>
    decreases pairs.len(),
{
    if pairs.len() == 0 {
        None
    } else if pairs[0].0@ == key {
        Some(pairs[0].1)
    } else {
        lookup_spec(pairs.drop_first(), key)
    }
}

/// Find the first value stored under a key.
fn lookup<'a>(pairs: &'a Vec<(String, ConfigValue)>, key: &str) -> (r: Option<&'a ConfigValue>)
    ensures
        match r {
            Some(v) => lookup_spec(pairs@, key@) == Some(*v),
            None => lookup_spec(pairs@, key@) is None,
        },
{
    let n = pairs.len();
    let mut i: usize = 0;
    assert(pairs@.skip(0) =~= pairs@);
    while i < n
        invariant
            i <= n,
            n == pairs@.len(),
            lookup_spec(pairs@, key@) == lookup_spec(pairs@.skip(i as int), key@),
        decreases n - i,
    {
        assert(pairs@.skip(i as int)[0] == pairs@[i as int]);
        assert(pairs@.skip(i as int).drop_first() =~= pairs@.skip(i + 1));
        if str_eq(pairs[i].0.as_str(), key) {
            return Some(&pairs[i].1);
        }
        i = i + 1;
    }
    None
}

/// The strings of an array of configuration values; `None` when some element
/// is not a string.
pub open spec fn strings_of(items: Seq<ConfigValue>) -> Option<Seq<Seq<char>>>
    decreases items.len(),
{
    if items.len() == 0 {
        Some(seq![])
    } else {
        match items[0] {
            ConfigValue::Str(s) => match strings_of(items.drop_first()) {
                Some(rest) => Some(seq![s@] + rest),
                None => None,
            },
            _ => None,
        }
    }
}

/// Extract the strings of an array of configuration values.
fn extract_strings(items: &Vec<ConfigValue>) -> (r: Option<Vec<String>>)
    ensures
        match r {
            Some(v) => strings_of(items@) == Some(v.deep_view()),
            None => strings_of(items@) is None,
        },
{
    let n = items.len();
    let mut out: Vec<String> = Vec::new();
    let mut i: usize = 0;
    assert(items@.skip(0) =~= items@);
    while i < n
        invariant
            i <= n,
            n == items@.len(),
            out@.len() == i,
            match strings_of(items@.skip(i as int)) {
                Some(rest) => strings_of(items@) == Some(out.deep_view() + rest),
                None => strings_of(items@) is None,
            },
        decreases n - i,
    {
        assert(items@.skip(i as int)[0] == items@[i as int]);
        assert(items@.skip(i as int).drop_first() =~= items@.skip(i + 1));
        match &items[i] {
            ConfigValue::Str(s) => {
                let ghost out0 = out.deep_view();
                out.push(s.clone());
                proof {
                    assert(out.deep_view() =~= out0 + seq![s@]);
                    if strings_of(items@.skip(i + 1)) is Some {
                        let rest = strings_of(items@.skip(i + 1))->0;
                        assert((out0 + seq![s@]) + rest =~= out0 + (seq![s@] + rest));
                    }
                }
            },
            _ => {
                return None;
            },
        }
        i = i + 1;
    }
    proof {
        assert(items@.skip(n as int) =~= Seq::<ConfigValue>::empty());
        assert(out.deep_view() + Seq::<Seq<char>>::empty() =~= out.deep_view());
    }
    Some(out)
}

/// Whether the exclusion list names a path.
pub open spec fn excluded_path(p: Seq<char>, excl: Seq<Seq<char>>) -> bool {
    exists|k: int| 0 <= k < excl.len() && excl[k] == p
}

/// The paths left after removing every excluded one, in order.
pub open spec fn subtract_paths_spec(paths: Seq<Seq<char>>, excl: Seq<Seq<char>>) -> Seq<Seq<char>>
    decreases paths.len(),
{
    if paths.len() == 0 {
        seq![]
    } else {
        let rest = subtract_paths_spec(paths.drop_first(), excl);
        if excluded_path(paths[0], excl) {
            rest
        } else {
            seq![paths[0]] + rest
        }
    }
}

/// Whether one path is named by the exclusion list.
fn path_excluded(p: &String, excluded: &Vec<String>) -> (r: bool)
    ensures
        r == excluded_path(p@, excluded.deep_view()),
{
    let n = excluded.len();
    let mut k: usize = 0;
    while k < n
        invariant
            k <= n,
            n == excluded@.len(),
            forall|j: int| 0 <= j < k ==> excluded.deep_view()[j] != p@,
        decreases n - k,
    {
        assert(excluded.deep_view()[k as int] == excluded@[k as int]@);
        if str_eq(p.as_str(), excluded[k].as_str()) {
            return true;
        }
        k = k + 1;
    }
    false
}

/// Build the corpus path list: the expanded source paths with every path the
/// exclusion globs expanded to removed, order kept.
pub fn subtract_paths(paths: Vec<String>, excluded: &Vec<String>) -> (r: Vec<String>)
    ensures
        r.deep_view() == subtract_paths_spec(paths.deep_view(), excluded.deep_view()),
{
    let ghost pv = paths.deep_view();
    let ghost ev = excluded.deep_view();
    let n = paths.len();
    let mut out: Vec<String> = Vec::new();
    let mut i: usize = 0;
    assert(pv.skip(0) =~= pv);
    while i < n
        invariant
            i <= n,
            n == paths@.len(),
            pv == paths.deep_view(),
            ev == excluded.deep_view(),
            pv.len() == n,
            subtract_paths_spec(pv, ev) == out.deep_view() + subtract_paths_spec(
                pv.skip(i as int),
                ev,
            ),
        decreases n - i,
    {
        assert(pv.skip(i as int)[0] == pv[i as int]);
        assert(pv.skip(i as int).drop_first() =~= pv.skip(i + 1));
        assert(pv[i as int] == paths@[i as int]@);
        let p = &paths[i];
        if !path_excluded(p, excluded) {
            let ghost out0 = out.deep_view();
            out.push(p.clone());
            proof {
                assert(out.deep_view() =~= out0 + seq![pv[i as int]]);
                assert((out0 + seq![pv[i as int]]) + subtract_paths_spec(pv.skip(i + 1), ev)
                    =~= out0 + (seq![pv[i as int]] + subtract_paths_spec(pv.skip(i + 1), ev)));
            }
        }
        i = i + 1;
    }
    proof {
        assert(pv.skip(n as int) =~= Seq::<Seq<char>>::empty());
        assert(out.deep_view() + subtract_paths_spec(pv.skip(n as int), ev) =~= out.deep_view());
    }
    out
}

/// Why a launch request's configuration was rejected.  Each variant names
/// the offending field.
#[derive(Clone, Copy, Debug, PartialEq, Eq)]
pub enum ConfigError {
    NoAdditionalData,
    MissingLogFile,
    LogFileNotString,
    MissingLogPattern,
    LogPatternNotString,
    MissingSources,
    SourcesNotValid,
    MissingExclude,
    ExcludeNotValid,
}

impl ConfigError {
    /// The message the launch error response carries.
    pub fn message(&self) -> (r: String)
        ensures
            r@ == self.message_spec(),
    {
        match self {
            ConfigError::NoAdditionalData => "Init message did not contain additional data".to_owned(),
            ConfigError::MissingLogFile => "Missing log file".to_owned(),
            ConfigError::LogFileNotString => "Log file is not a string".to_owned(),
            ConfigError::MissingLogPattern => "Missing log_pattern".to_owned(),
            ConfigError::LogPatternNotString => "log_pattern is not a valid string".to_owned(),
            ConfigError::MissingSources => "Missing sources".to_owned(),
            ConfigError::SourcesNotValid => "sources is not a valid array of strings".to_owned(),
            ConfigError::MissingExclude => "Missing exclude".to_owned(),
            ConfigError::ExcludeNotValid => "exclude is not a valid array of strings".to_owned(),
        }
    }

    /// The message `message` returns.
    pub open spec fn message_spec(&self) -> Seq<char> {
        match self {
            ConfigError::NoAdditionalData => "Init message did not contain additional data"@,
            ConfigError::MissingLogFile => "Missing log file"@,
            ConfigError::LogFileNotString => "Log file is not a string"@,
            ConfigError::MissingLogPattern => "Missing log_pattern"@,
            ConfigError::LogPatternNotString => "log_pattern is not a valid string"@,
            ConfigError::MissingSources => "Missing sources"@,
            ConfigError::SourcesNotValid => "sources is not a valid array of strings"@,
            ConfigError::MissingExclude => "Missing exclude"@,
            ConfigError::ExcludeNotValid => "exclude is not a valid array of strings"@,
        }
    }
}

/// The validated launch request: where the log lives, the pattern text, and
/// the source globs.  The log file itself is read, and the pattern compiled,
/// after this validation.
#[derive(Debug)]
pub struct LaunchRequestConfig {
    pub log_file_name: String,
    pub pattern_text: String,
    pub sources: Vec<String>,
    pub exclude: Vec<String>,
}

/// The mathematical content of a validated launch request.
pub struct LaunchView {
    pub log_file_name: Seq<char>,
    pub pattern_text: Seq<char>,
    pub sources: Seq<Seq<char>>,
    pub exclude: Seq<Seq<char>>,
}

impl View for LaunchRequestConfig {
    type V = LaunchView;

    open spec fn view(&self) -> LaunchView {
        LaunchView {
            log_file_name: self.log_file_name@,
            pattern_text: self.pattern_text@,
            sources: self.sources.deep_view(),
            exclude: self.exclude.deep_view(),
        }
    }
}

/// What a glob-list field accepts: an array of strings, or a single string
/// standing for a one-element array.
pub open spec fn glob_list_spec(v: ConfigValue) -> Option<Seq<Seq<char>>> {
    match v {
        ConfigValue::Str(s) => Some(seq![s@]),
        ConfigValue::Array(items) => strings_of(items@),
        _ => None,
    }
}

/// What validating `additionalData` yields.
pub open spec fn load_settings_spec(data: Option<ConfigValue>) -> Result<LaunchView, ConfigError> {
    match data {
        Some(ConfigValue::Object(pairs)) => {
            match lookup_spec(pairs@, "log_file"@) {
                None => Err(ConfigError::MissingLogFile),
                Some(lf) => match lf {
                    ConfigValue::Str(log_file_name) => {
                        match lookup_spec(pairs@, "log_pattern"@) {
                            None => Err(ConfigError::MissingLogPattern),
                            Some(lp) => match lp {
                                ConfigValue::Str(pattern_text) => {
                                    match lookup_spec(pairs@, "sources"@) {
                                        None => Err(ConfigError::MissingSources),
                                        Some(inc) => match glob_list_spec(inc) {
                                            None => Err(ConfigError::SourcesNotValid),
                                            Some(sources) => {
                                                match lookup_spec(pairs@, "exclude"@) {
                                                    None => Err(ConfigError::MissingExclude),
                                                    Some(exc) => match glob_list_spec(exc) {
                                                        None => Err(ConfigError::ExcludeNotValid),
                                                        Some(exclude) => Ok(
                                                            LaunchView {
                                                                log_file_name: log_file_name@,
                                                                pattern_text: pattern_text@,
                                                                sources,
                                                                exclude,
                                                            },
                                                        ),
                                                    },
                                                }
                                            },
                                        },
                                    }
                                },
                                _ => Err(ConfigError::LogPatternNotString),
                            },
                        }
                    },
                    _ => Err(ConfigError::LogFileNotString),
                },
            }
        },
        _ => Err(ConfigError::NoAdditionalData),
    }
}

/// Read one glob-list field.
fn extract_glob_list(v: &ConfigValue) -> (r: Option<Vec<String>>)
    ensures
        match r {
            Some(out) => glob_list_spec(*v) == Some(out.deep_view()),
            None => glob_list_spec(*v) is None,
        },
{
    match v {
        ConfigValue::Str(s) => {
            let mut out: Vec<String> = Vec::new();
            out.push(s.clone());
            assert(out.deep_view() =~= seq![s@]);
            Some(out)
        },
        ConfigValue::Array(items) => extract_strings(items),
        _ => None,
    }
}

/// Validate the `additionalData` of a launch request.  Fails, naming the
/// field, when the data is absent or not an object, when `log_file`,
/// `log_pattern`, `sources` or `exclude` is missing, when either of the
/// first two is not a string, or when either glob list is neither a string
/// nor an array of strings.
pub fn load_settings(data: &Option<ConfigValue>) -> (r: Result<LaunchRequestConfig, ConfigError>)
    ensures
        match r {
            Ok(cfg) => load_settings_spec(*data) matches Ok(lv) && cfg@ == lv,
            Err(e) => load_settings_spec(*data) matches Err(e2) && e2 == e,
        },
{
    let pairs = match data {
        Some(ConfigValue::Object(pairs)) => pairs,
        _ => {
            return Err(ConfigError::NoAdditionalData);
        },
    };
    let log_file_name = match lookup(pairs, "log_file") {
        None => {
            return Err(ConfigError::MissingLogFile);
        },
        Some(ConfigValue::Str(s)) => s.clone(),
        Some(_) => {
            return Err(ConfigError::LogFileNotString);
        },
    };
    let pattern_text = match lookup(pairs, "log_pattern") {
        None => {
            return Err(ConfigError::MissingLogPattern);
        },
        Some(ConfigValue::Str(s)) => s.clone(),
        Some(_) => {
            return Err(ConfigError::LogPatternNotString);
        },
    };
    let sources = match lookup(pairs, "sources") {
        None => {
            return Err(ConfigError::MissingSources);
        },
        Some(v) => match extract_glob_list(v) {
            Some(out) => out,
            None => {
                return Err(ConfigError::SourcesNotValid);
            },
        },
    };
    let exclude = match lookup(pairs, "exclude") {
        None => {
            return Err(ConfigError::MissingExclude);
        },
        Some(v) => match extract_glob_list(v) {
            Some(out) => out,
            None => {
                return Err(ConfigError::ExcludeNotValid);
            },
        },
    };
    Ok(LaunchRequestConfig { log_file_name, pattern_text, sources, exclude })
}

} // verus!
