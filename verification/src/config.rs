use vstd::prelude::*;

verus! {

/// The settings that the environment can give.
#[derive(Clone, Copy, Debug, PartialEq, Eq, Hash, Structural)]
pub enum Env {
    Database,
    ApiKey,
}

/// The settings that the environment gave.
#[derive(Debug)]
pub struct Config {
    pub database: Option<String>,
    pub api_key: Option<String>,
}

impl Config {
    /// The settings with the given values.
    pub fn new(database: Option<String>, api_key: Option<String>) -> (config: Config)
        ensures
            config.database == database,
            config.api_key == api_key,
    {
        Config { database, api_key }
    }

    /// The value of a setting, if the environment gave one.
    pub fn get(&self, key: Env) -> (value: Option<&str>)
        ensures
            match key {
                Env::Database => match self.database {
                    Some(v) => value matches Some(s) && s@ == v@,
                    None => value is None,
                },
                Env::ApiKey => match self.api_key {
                    Some(v) => value matches Some(s) && s@ == v@,
                    None => value is None,
                },
            },
    {
        let held = match key {
            Env::Database => &self.database,
            Env::ApiKey => &self.api_key,
        };
        match held {
            Some(v) => Some(v.as_str()),
            None => None,
        }
    }
}

} // verus!
