//! Configuration shared by applications of the messaging middleware.

use vstd::prelude::*;
use vstd::string::StringExecFns;

verus! {

/// Name of the environment variable that may give the configuration file.
pub const CONF_ENV_VAR: &'static str = "DDMW_APPCONF";

/// The configuration file used when no other is named.
pub const DEFAULT_CONF_FILE: &'static str = "ddmwapp.toml";

/// An application's configuration.
#[derive(Debug, Default)]
pub struct Config {
    pub channel: Option<u8>,
    pub auth: Option<Auth>,
    pub sender: Option<Sender>,
    pub receiver: Option<Receiver>,
}

/// How an application authenticates.
#[derive(Debug, Default)]
pub struct Auth {
    pub name: Option<String>,
    pub pass: Option<String>,
    pub pass_file: Option<String>,
    pub token: Option<String>,
    pub token_file: Option<String>,
}

/// Interfaces of a sending application.
#[derive(Debug, Default)]
pub struct Sender {
    pub mgmtif: Option<String>,
    pub msgif: Option<String>,
}

/// Interfaces and retry policy of a receiving application.
#[derive(Debug, Default)]
pub struct Receiver {
    pub mgmtif: Option<String>,
    pub subif: Option<String>,
    pub sub_retries: Option<u32>,
    pub sub_retry_delay: Option<String>,
    pub push_listenif: Option<String>,
}

/// The configuration file to read: the one named by the caller, else the
/// one named by the environment variable, else the default file.
pub open spec fn conf_path_spec(fname: Option<Seq<char>>, env_value: Option<Seq<char>>) -> Seq<
    char,
> {
    match fname {
        Some(p) => p,
        None => match env_value {
            Some(e) => e,
            None => DEFAULT_CONF_FILE@,
        },
    }
}

/// Choose the configuration file from the caller's name for it and the value
/// of the environment variable `CONF_ENV_VAR`, if either is given.
pub fn conf_path(fname: Option<String>, env_value: Option<String>) -> (r: String)
    ensures
        r@ == conf_path_spec(
            match fname {
                Some(p) => Some(p@),
                None => None,
            },
            match env_value {
                Some(e) => Some(e@),
                None => None,
            },
        ),
{
    match fname {
        Some(p) => p,
        None => match env_value {
            Some(e) => e,
            None => <String as StringExecFns>::from_str(DEFAULT_CONF_FILE),
        },
    }
}

} // verus!
