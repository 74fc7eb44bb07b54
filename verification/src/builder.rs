//! Logger configuration: a fluent builder holding the environment, the
//! required fields, and optional overrides for the two computed-timestamp
//! field names.  `build` snapshots it into an immutable `Logger`.

use vstd::prelude::*;

use crate::Logger;
use crate::fields::{FieldV, FieldValue, RequiredFields};

verus! {

/// The deployment environment a logger is configured for; a pure tag that
/// drives the color and debug-visibility switches.
#[derive(Clone, Copy, Debug, PartialEq, Eq, Structural)]
pub enum Environment {
    Local,
    Test,
    Development,
    Production,
}

/// Both behaviour switches — color and debug visibility — are on exactly in
/// the Local and Test environments.
pub open spec fn env_flags(env: Environment) -> bool {
    env is Local || env is Test
}

/// Ghost model of a logger configuration: the environment, the required
/// field mapping, and the two resolved computed-timestamp field names.
pub struct ConfigV {
    pub env: Environment,
    pub fields: Map<Seq<char>, FieldV>,
    pub ts_second: Seq<char>,
    pub ts_millisecond: Seq<char>,
}

/// Accumulates a logger configuration; every operation is total.  The
/// defaults are the Local environment, no required fields, and the built-in
/// timestamp field names `local.ts` and `local.ts_ms`.
#[derive(Debug)]
pub struct LoggerBuilder {
    pub(crate) env: Environment,
    pub(crate) required_fields: RequiredFields,
    pub(crate) ts_second_name: Option<String>,
    pub(crate) ts_millisecond_name: Option<String>,
}

impl View for LoggerBuilder {
    type V = ConfigV;

    open(crate) spec fn view(&self) -> ConfigV {
        ConfigV {
            env: self.env,
            fields: self.required_fields@,
            ts_second: self.ts_second_spec(),
            ts_millisecond: self.ts_millisecond_spec(),
        }
    }
}

impl LoggerBuilder {
    /// The name of the whole-second timestamp field: the override if set,
    /// else `local.ts`.
    pub open(crate) spec fn ts_second_spec(&self) -> Seq<char> {
        match self.ts_second_name {
            Option::None => "local.ts"@,
            Option::Some(s) => s@,
        }
    }

    /// The name of the millisecond timestamp field: the override if set,
    /// else `local.ts_ms`.
    pub open(crate) spec fn ts_millisecond_spec(&self) -> Seq<char> {
        match self.ts_millisecond_name {
            Option::None => "local.ts_ms"@,
            Option::Some(s) => s@,
        }
    }

    /// The required-field mapping is well formed.
    pub open(crate) spec fn wf(&self) -> bool {
        self.required_fields.wf()
    }

    /// Creates a builder with the default configuration.
    pub fn new() -> (r: Self)
        ensures
            r.wf(),
            r@.env == Environment::Local,
            r@.fields == Map::<Seq<char>, FieldV>::empty(),
            r@.ts_second == "local.ts"@,
            r@.ts_millisecond == "local.ts_ms"@,
    {
        LoggerBuilder {
            env: Environment::Local,
            required_fields: RequiredFields::new(),
            ts_second_name: Option::None,
            ts_millisecond_name: Option::None,
        }
    }

    /// Sets the logger environment to Test.
    pub fn as_test(self) -> (r: Self)
        ensures
            r.wf() == self.wf(),
            r@ == (ConfigV { env: Environment::Test, ..self@ }),
    {
        LoggerBuilder { env: Environment::Test, ..self }
    }

    /// Sets the logger environment to Local.
    pub fn as_local(self) -> (r: Self)
        ensures
            r.wf() == self.wf(),
            r@ == (ConfigV { env: Environment::Local, ..self@ }),
    {
        LoggerBuilder { env: Environment::Local, ..self }
    }

    /// Sets the logger environment to Development.
    pub fn as_dev(self) -> (r: Self)
        ensures
            r.wf() == self.wf(),
            r@ == (ConfigV { env: Environment::Development, ..self@ }),
    {
        LoggerBuilder { env: Environment::Development, ..self }
    }

    /// Sets the logger environment to Production.
    pub fn as_prod(self) -> (r: Self)
        ensures
            r.wf() == self.wf(),
            r@ == (ConfigV { env: Environment::Production, ..self@ }),
    {
        LoggerBuilder { env: Environment::Production, ..self }
    }

    /// Sets the logger environment to the supplied value.
    pub fn with_env(self, env: Environment) -> (r: Self)
        ensures
            r.wf() == self.wf(),
            r@ == (ConfigV { env, ..self@ }),
    {
        LoggerBuilder { env, ..self }
    }

    /// Adds or overwrites one required field, attached to every printed
    /// message.  Keys are not validated; a duplicate key overwrites.
    pub fn with_field(self, key: &str, value: FieldValue) -> (r: Self)
        requires
            self.wf(),
        ensures
            r.wf(),
            r@ == (ConfigV { fields: self@.fields.insert(key@, value@), ..self@ }),
    {
        let mut b = self;
        b.required_fields.add(key, value);
        b
    }

    /// Overrides the names of both computed timestamp fields; any strings,
    /// the empty one included, are accepted.
    pub fn with_timestamp_field_name(self, second: &str, millisecond: &str) -> (r: Self)
        ensures
            r.wf() == self.wf(),
            r@ == (ConfigV { ts_second: second@, ts_millisecond: millisecond@, ..self@ }),
    {
        LoggerBuilder {
            ts_second_name: Option::Some(second.to_owned()),
            ts_millisecond_name: Option::Some(millisecond.to_owned()),
            ..self
        }
    }

    /// Color is enabled exactly in the Local and Test environments.
    pub fn has_color(&self) -> (r: bool)
        ensures
            r == env_flags(self@.env),
    {
        matches!(self.env, Environment::Test | Environment::Local)
    }

    /// Debug messages are shown exactly in the Local and Test environments.
    pub fn show_debug(&self) -> (r: bool)
        ensures
            r == env_flags(self@.env),
    {
        matches!(self.env, Environment::Test | Environment::Local)
    }

    /// The name used for the whole-second timestamp field.
    pub fn timestamp_second_field_name(&self) -> (r: &str)
        ensures
            r@ == self@.ts_second,
    {
        match &self.ts_second_name {
            Option::None => "local.ts",
            Option::Some(s) => s.as_str(),
        }
    }

    /// The name used for the millisecond timestamp field.
    pub fn timestamp_millisecond_field_name(&self) -> (r: &str)
        ensures
            r@ == self@.ts_millisecond,
    {
        match &self.ts_millisecond_name {
            Option::None => "local.ts_ms",
            Option::Some(s) => s.as_str(),
        }
    }

    /// Builds a Logger holding an independent copy of the current
    /// configuration: mutating the builder afterwards does not affect the
    /// built logger.
    pub fn build(&self) -> (r: Logger)
        requires
            self.wf(),
        ensures
            r.wf(),
            r@ == self@,
    {
        Logger::new(self)
    }
}

impl Clone for LoggerBuilder {
    /// The copy holds the same configuration and shares nothing with the
    /// original.
    fn clone(&self) -> (r: Self)
        ensures
            r@ == self@,
            self.wf() ==> r.wf(),
    {
        LoggerBuilder {
            env: self.env,
            required_fields: self.required_fields.clone(),
            ts_second_name: match &self.ts_second_name {
                Option::None => Option::None,
                Option::Some(s) => Option::Some(s.clone()),
            },
            ts_millisecond_name: match &self.ts_millisecond_name {
                Option::None => Option::None,
                Option::Some(s) => Option::Some(s.clone()),
            },
        }
    }
}

impl Default for LoggerBuilder {
    /// Same as `LoggerBuilder::new`: the default configuration.
    fn default() -> (r: Self)
        ensures
            r.wf(),
            r@.env == Environment::Local,
            r@.fields == Map::<Seq<char>, FieldV>::empty(),
            r@.ts_second == "local.ts"@,
            r@.ts_millisecond == "local.ts_ms"@,
    {
        LoggerBuilder::new()
    }
}

} // verus!
