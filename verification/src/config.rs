//! The gateway's process configuration: listen addresses, database and
//! bootstrap file, with environment overrides.
use vstd::prelude::*;

use crate::text::{is_blank, trim, trim_str};

verus! {

/// Where the gateway listens and what it reads at start.
#[derive(Debug)]
pub struct AppConfig {
    pub proxy_bind_addr: String,
    pub admin_bind_addr: String,
    pub database_url: String,
    pub bootstrap_json_path: Option<String>,
    pub proxy_api_key: Option<String>,
}

/// The values of the environment variables that override the defaults,
/// where they are set: `RACE_GATEWAY_PROXY_BIND_ADDR`,
/// `RACE_GATEWAY_ADMIN_BIND_ADDR`, `RACE_GATEWAY_DATABASE_URL`,
/// `RACE_GATEWAY_BOOTSTRAP_JSON_PATH`.
#[derive(Debug)]
pub struct EnvOverrides {
    pub proxy_bind_addr: Option<String>,
    pub admin_bind_addr: Option<String>,
    pub database_url: Option<String>,
    pub bootstrap_json_path: Option<String>,
}

/// The default proxy listen address.
pub open spec fn default_proxy_bind_addr() -> Seq<char> {
    "127.0.0.1:2090"@
}

/// The default administration listen address.
pub open spec fn default_admin_bind_addr() -> Seq<char> {
    "127.0.0.1:2091"@
}

/// The default database.
pub open spec fn default_database_url() -> Seq<char> {
    "sqlite://race-gateway.db"@
}

impl Default for AppConfig {
    fn default() -> (r: Self)
        ensures
            r.proxy_bind_addr@ == default_proxy_bind_addr(),
            r.admin_bind_addr@ == default_admin_bind_addr(),
            r.database_url@ == default_database_url(),
            r.bootstrap_json_path.is_none(),
            r.proxy_api_key.is_none(),
    {
        AppConfig {
            proxy_bind_addr: "127.0.0.1:2090".to_string(),
            admin_bind_addr: "127.0.0.1:2091".to_string(),
            database_url: "sqlite://race-gateway.db".to_string(),
            bootstrap_json_path: None,
            proxy_api_key: None,
        }
    }
}

/// A setting overridden by an environment value: the value trimmed when it
/// is set and not blank, else the default.
pub open spec fn overridden(value: Option<Seq<char>>, default: Seq<char>) -> Seq<char> {
    match value {
        Some(v) => if is_blank(v) {
            default
        } else {
            trim(v)
        },
        None => default,
    }
}

/// The view of an optional string.
pub open spec fn opt_str_view(o: Option<String>) -> Option<Seq<char>> {
    match o {
        Some(s) => Some(s@),
        None => None,
    }
}

fn override_with(value: &Option<String>, default: String) -> (r: String)
    ensures
        r@ == overridden(opt_str_view(*value), default@),
{
    match value {
        Some(v) => {
            let t = trim_str(v.as_str());
            if t.as_str().unicode_len() == 0 {
                default
            } else {
                t
            }
        },
        None => default,
    }
}

impl AppConfig {
    /// The defaults with each environment value that is set and not blank
    /// taking the place of its default, trimmed.
    pub fn from_env_values(env: &EnvOverrides) -> (r: Self)
        ensures
            r.proxy_bind_addr@ == overridden(
                opt_str_view(env.proxy_bind_addr),
                default_proxy_bind_addr(),
            ),
            r.admin_bind_addr@ == overridden(
                opt_str_view(env.admin_bind_addr),
                default_admin_bind_addr(),
            ),
            r.database_url@ == overridden(opt_str_view(env.database_url), default_database_url()),
            opt_str_view(r.bootstrap_json_path) == match env.bootstrap_json_path {
                Some(v) => if is_blank(v@) {
                    None
                } else {
                    Some(trim(v@))
                },
                None => None,
            },
            r.proxy_api_key.is_none(),
    {
        let d = AppConfig::default();
        let bootstrap_json_path = match &env.bootstrap_json_path {
            Some(v) => {
                let t = trim_str(v.as_str());
                if t.as_str().unicode_len() == 0 {
                    None
                } else {
                    Some(t)
                }
            },
            None => None,
        };
        AppConfig {
            proxy_bind_addr: override_with(&env.proxy_bind_addr, d.proxy_bind_addr),
            admin_bind_addr: override_with(&env.admin_bind_addr, d.admin_bind_addr),
            database_url: override_with(&env.database_url, d.database_url),
            bootstrap_json_path,
            proxy_api_key: None,
        }
    }
}

} // verus!
