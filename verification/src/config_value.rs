//! Configuration values: their type and default, as declared by build scripts.
use vstd::prelude::*;

use crate::id::{label_text, Label};
use crate::intern::{Interner, InternerError};

verus! {

/// The type of a configuration value.
#[derive(Debug, Clone, Copy, PartialEq, Eq, Structural)]
pub enum ConfigType {
    Label,
    String,
    Boolean,
    Number,
}

/// The default of a configuration value, with labels as text.
#[derive(Debug, Clone, PartialEq, Eq)]
pub enum ConfigDefault {
    Label(String),
    String { string: String },
    Boolean(bool),
    Number(i64),
}

/// A configuration value as declared: its type and its default.
#[derive(Debug, Clone, PartialEq, Eq)]
pub struct ConfigValue {
    pub config_type: ConfigType,
    pub default: Option<ConfigDefault>,
}

/// A configuration value with its labels interned.
#[derive(Debug, Clone)]
pub enum ResolvedConfigValue {
    Label(Label),
    String(String),
    Boolean(bool),
    Number(i64),
}

impl ResolvedConfigValue {
    /// The declared form: the type of the value, and the value as its default.
    pub fn resolve(self, interner: &Interner) -> (r: Result<ConfigValue, InternerError>)
        ensures
            match self {
                ResolvedConfigValue::Label(l) => match label_text(
                    interner@,
                    l.package_ref.0.0 as int,
                    l.path.0.0 as int,
                    l.target.0.0 as int,
                ) {
                    Some(t) => match r {
                        Ok(v) => v.config_type == ConfigType::Label && match v.default {
                            Some(ConfigDefault::Label(s)) => s@ == t,
                            _ => false,
                        },
                        Err(_) => false,
                    },
                    None => r is Err,
                },
                ResolvedConfigValue::String(s) => match r {
                    Ok(v) => v.config_type == ConfigType::String && match v.default {
                        Some(ConfigDefault::String { string }) => string@ == s@,
                        _ => false,
                    },
                    Err(_) => false,
                },
                ResolvedConfigValue::Boolean(b) => r == Ok::<ConfigValue, InternerError>(
                    ConfigValue {
                        config_type: ConfigType::Boolean,
                        default: Some(ConfigDefault::Boolean(b)),
                    },
                ),
                ResolvedConfigValue::Number(n) => r == Ok::<ConfigValue, InternerError>(
                    ConfigValue {
                        config_type: ConfigType::Number,
                        default: Some(ConfigDefault::Number(n)),
                    },
                ),
            },
    {
        match self {
            ResolvedConfigValue::Label(l) => match l.resolved(interner) {
                Ok(s) => Ok(
                    ConfigValue {
                        config_type: ConfigType::Label,
                        default: Some(ConfigDefault::Label(s)),
                    },
                ),
                Err(e) => Err(e),
            },
            ResolvedConfigValue::String(s) => Ok(
                ConfigValue {
                    config_type: ConfigType::String,
                    default: Some(ConfigDefault::String { string: s }),
                },
            ),
            ResolvedConfigValue::Boolean(b) => Ok(
                ConfigValue {
                    config_type: ConfigType::Boolean,
                    default: Some(ConfigDefault::Boolean(b)),
                },
            ),
            ResolvedConfigValue::Number(n) => Ok(
                ConfigValue {
                    config_type: ConfigType::Number,
                    default: Some(ConfigDefault::Number(n)),
                },
            ),
        }
    }
}

} // verus!
