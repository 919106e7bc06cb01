//! Process configuration, built once at startup and passed to the handlers.

use vstd::prelude::*;

verus! {

/// Environment variable naming the address to bind.
pub const HOST_VAR: &'static str = "AUT_HOST";

/// Environment variable naming the port to bind.
pub const PORT_VAR: &'static str = "AUT_PORT";

/// Environment variable naming the backing file of the directory.
pub const USERS_FILE_VAR: &'static str = "AUT_USERS_FILE";

/// Where the service listens and where the directory is stored.
#[derive(Clone, Debug)]
pub struct Config {
    pub host: String,
    pub port: String,
    pub users_file: String,
}

/// Why no configuration could be built.
#[derive(PartialEq, Eq, Structural, Clone, Copy, Debug)]
pub enum ConfigError {
    /// The backing file's path was not given.
    MissingUsersFile,
}

impl Config {
    /// Builds the configuration from the values found for the three
    /// variables: host and port fall back to `0.0.0.0` and `5555`; the path
    /// of the backing file has no default.
    pub fn from_values(
        host: Option<String>,
        port: Option<String>,
        users_file: Option<String>,
    ) -> (r: Result<Config, ConfigError>)
        ensures
            users_file is None <==> r == Err::<Config, ConfigError>(ConfigError::MissingUsersFile),
            users_file is Some ==> r is Ok,
            r matches Ok(c) ==> {
                &&& c.host@ == (match host {
                    Some(h) => h@,
                    None => "0.0.0.0"@,
                })
                &&& c.port@ == (match port {
                    Some(p) => p@,
                    None => "5555"@,
                })
                &&& users_file matches Some(f) && c.users_file@ == f@
            },
    {
        let users_file = match users_file {
            Some(f) => f,
            None => {
                return Err(ConfigError::MissingUsersFile);
            },
        };
        let host = match host {
            Some(h) => h,
            None => "0.0.0.0".to_owned(),
        };
        let port = match port {
            Some(p) => p,
            None => "5555".to_owned(),
        };
        Ok(Config { host, port, users_file })
    }
}

} // verus!
