//! Application configuration: the raw variable values handed in by the
//! process environment are validated and parsed here; reading the
//! environment itself is the caller's business.

use vstd::prelude::*;

use crate::text::{all_digits, digits_val, has_prefix, parse_u64};

verus! {

/// The shortest signing secret accepted.
pub const MIN_JWT_SECRET_LEN: usize = 32;

/// All configurable parameters of the process.
#[derive(Debug)]
pub struct Config {
    /// PostgreSQL connection URL.
    pub database_url: String,
    /// Redis connection URL for the price cache.
    pub redis_url: String,
    /// Upstream price feed endpoint.
    pub grpc_server_url: String,
    /// Token signing secret.
    pub jwt_secret: String,
    /// Listen address.
    pub server_host: String,
    /// Listen port.
    pub server_port: u16,
    /// Database connection pool size.
    pub max_db_connections: u32,
    /// Log level name.
    pub log_level: String,
    /// Largest accepted request body, in bytes.
    pub max_request_size: usize,
    /// Whether the feed connection uses TLS.
    pub grpc_tls_enabled: bool,
    /// Token lifetime, in hours.
    pub jwt_expiration_hours: i64,
}

/// Why a configuration was rejected.
#[derive(Clone, Copy, Debug, PartialEq, Eq, Structural)]
pub enum ConfigError {
    MissingJwtSecret,
    WeakJwtSecret,
    MissingDatabaseUrl,
    MissingRedisUrl,
    MissingGrpcServerUrl,
    InvalidServerPort,
    InvalidMaxDbConnections,
    InvalidMaxRequestSize,
    InvalidGrpcTlsEnabled,
    InvalidJwtExpirationHours,
}

/// The text is a plain decimal number no greater than `max`.
pub open spec fn u64_text_ok(s: Seq<char>, max: int) -> bool {
    s.len() >= 1 && all_digits(s) && digits_val(s) <= max
}

/// The text is `true` or `false`.
pub open spec fn bool_text_ok(s: Seq<char>) -> bool {
    s == "true"@ || s == "false"@
}

/// The text is a decimal number with an optional leading minus, in the
/// signed 64-bit range.
pub open spec fn i64_text_ok(s: Seq<char>) -> bool {
    if s.len() >= 1 && s[0] == '-' {
        s.len() >= 2 && all_digits(s.skip(1)) && digits_val(s.skip(1)) <= i64::MAX + 1
    } else {
        u64_text_ok(s, i64::MAX as int)
    }
}

/// Value of a signed decimal text.
pub open spec fn i64_text_val(s: Seq<char>) -> int {
    if s.len() >= 1 && s[0] == '-' {
        -digits_val(s.skip(1))
    } else {
        digits_val(s)
    }
}

/// The required variables are present and the secret is strong enough.
pub open spec fn required_vars_ok(
    jwt_secret: Option<String>,
    database_url: Option<String>,
    redis_url: Option<String>,
    grpc_server_url: Option<String>,
) -> bool {
    &&& (match jwt_secret {
        Some(s) => s@.len() >= MIN_JWT_SECRET_LEN,
        None => false,
    })
    &&& database_url is Some
    &&& redis_url is Some
    &&& grpc_server_url is Some
}

/// An optional numeric variable is absent or well-formed.
pub open spec fn opt_u64_ok(v: Option<String>, max: int) -> bool {
    match v {
        None => true,
        Some(s) => u64_text_ok(s@, max),
    }
}

/// An optional boolean variable is absent or well-formed.
pub open spec fn opt_bool_ok(v: Option<String>) -> bool {
    match v {
        None => true,
        Some(s) => bool_text_ok(s@),
    }
}

/// An optional signed variable is absent or well-formed.
pub open spec fn opt_i64_ok(v: Option<String>) -> bool {
    match v {
        None => true,
        Some(s) => i64_text_ok(s@),
    }
}

/// Parses a plain decimal number, rejecting values over `max`.
fn parse_bounded(s: &str, max: u64) -> (r: Option<u64>)
    ensures
        r matches Some(v) <==> u64_text_ok(s@, max as int),
        r matches Some(v) ==> v as int == digits_val(s@) && v <= max,
{
    match parse_u64(s) {
        None => None,
        Some(v) => {
            if v <= max {
                Some(v)
            } else {
                None
            }
        },
    }
}

/// Parses `true` or `false`.
fn parse_bool_text(s: &str) -> (r: Option<bool>)
    ensures
        r matches Some(b) <==> bool_text_ok(s@),
        r matches Some(b) ==> b == (s@ == "true"@),
{
    if crate::text::str_eq(s, "true") {
        Some(true)
    } else if crate::text::str_eq(s, "false") {
        proof {
            reveal_strlit("true");
            reveal_strlit("false");
            assert("true"@.len() != "false"@.len());
        }
        Some(false)
    } else {
        None
    }
}

/// Parses a signed decimal number in the 64-bit range.
fn parse_i64_text(s: &str) -> (r: Option<i64>)
    ensures
        r matches Some(v) <==> i64_text_ok(s@),
        r matches Some(v) ==> v as int == i64_text_val(s@),
{
    proof {
        reveal_strlit("-");
    }
    if has_prefix(s, "-") {
        proof {
            assert(s@.subrange(0, 1)[0] == s@[0]);
            assert(s@[0] == '-');
        }
        let len = s.unicode_len();
        let rest = s.substring_char(1, len);
        proof {
            assert(rest@ =~= s@.skip(1));
        }
        match parse_u64(rest) {
            None => None,
            Some(v) => {
                if v <= 9_223_372_036_854_775_808u64 {
                    if v == 9_223_372_036_854_775_808u64 {
                        Some(i64::MIN)
                    } else {
                        Some(-(v as i64))
                    }
                } else {
                    None
                }
            },
        }
    } else {
        proof {
            if s@.len() >= 1 && s@[0] == '-' {
                assert(s@.subrange(0, 1) =~= "-"@);
            }
        }
        match parse_u64(s) {
            None => None,
            Some(v) => {
                if v <= i64::MAX as u64 {
                    Some(v as i64)
                } else {
                    None
                }
            },
        }
    }
}

impl Config {
    /// Builds and validates a configuration from the raw variable values.
    ///
    /// The connection URLs and the signing secret are required, and the
    /// secret must have at least 32 characters; everything else falls back to
    /// a default when absent, and is rejected only when present and
    /// malformed. Exactly the first failure in that order is reported.
    pub fn from_vars(
        jwt_secret: Option<String>,
        database_url: Option<String>,
        redis_url: Option<String>,
        grpc_server_url: Option<String>,
        server_host: Option<String>,
        server_port: Option<String>,
        max_db_connections: Option<String>,
        log_level: Option<String>,
        max_request_size: Option<String>,
        grpc_tls_enabled: Option<String>,
        jwt_expiration_hours: Option<String>,
    ) -> (r: Result<Config, ConfigError>)
        ensures
            r == Err::<Config, ConfigError>(ConfigError::MissingJwtSecret) <==> jwt_secret is None,
            r == Err::<Config, ConfigError>(ConfigError::WeakJwtSecret) <==> (jwt_secret
                matches Some(s) && s@.len() < MIN_JWT_SECRET_LEN),
            r == Err::<Config, ConfigError>(ConfigError::MissingDatabaseUrl) <==> (jwt_secret
                matches Some(s) && s@.len() >= MIN_JWT_SECRET_LEN && database_url is None),
            r == Err::<Config, ConfigError>(ConfigError::MissingRedisUrl) <==> (jwt_secret
                matches Some(s) && s@.len() >= MIN_JWT_SECRET_LEN && database_url is Some
                && redis_url is None),
            r == Err::<Config, ConfigError>(ConfigError::MissingGrpcServerUrl) <==> (jwt_secret
                matches Some(s) && s@.len() >= MIN_JWT_SECRET_LEN && database_url is Some
                && redis_url is Some && grpc_server_url is None),
            r matches Ok(c) ==> {
                &&& jwt_secret matches Some(s) && c.jwt_secret@ == s@ && s@.len()
                    >= MIN_JWT_SECRET_LEN
                &&& database_url matches Some(s) && c.database_url@ == s@
                &&& redis_url matches Some(s) && c.redis_url@ == s@
                &&& grpc_server_url matches Some(s) && c.grpc_server_url@ == s@
                &&& c.server_host@ == (match server_host {
                    Some(s) => s@,
                    None => "127.0.0.1"@,
                })
                &&& c.server_port as int == (match server_port {
                    Some(s) => digits_val(s@),
                    None => 3000,
                })
                &&& c.max_db_connections as int == (match max_db_connections {
                    Some(s) => digits_val(s@),
                    None => 5,
                })
                &&& c.log_level@ == (match log_level {
                    Some(s) => s@,
                    None => "info"@,
                })
                &&& c.max_request_size as int == (match max_request_size {
                    Some(s) => digits_val(s@),
                    None => 1048576,
                })
                &&& c.grpc_tls_enabled == (match grpc_tls_enabled {
                    Some(s) => s@ == "true"@,
                    None => false,
                })
                &&& c.jwt_expiration_hours as int == (match jwt_expiration_hours {
                    Some(s) => i64_text_val(s@),
                    None => 24,
                })
            },
            r == Err::<Config, ConfigError>(ConfigError::InvalidServerPort) <==> required_vars_ok(
                jwt_secret,
                database_url,
                redis_url,
                grpc_server_url,
            ) && !opt_u64_ok(server_port, u16::MAX as int),
            r == Err::<Config, ConfigError>(ConfigError::InvalidMaxDbConnections)
                <==> required_vars_ok(jwt_secret, database_url, redis_url, grpc_server_url)
                && opt_u64_ok(server_port, u16::MAX as int) && !opt_u64_ok(
                max_db_connections,
                u32::MAX as int,
            ),
            r == Err::<Config, ConfigError>(ConfigError::InvalidMaxRequestSize)
                <==> required_vars_ok(jwt_secret, database_url, redis_url, grpc_server_url)
                && opt_u64_ok(server_port, u16::MAX as int) && opt_u64_ok(
                max_db_connections,
                u32::MAX as int,
            ) && !opt_u64_ok(max_request_size, usize::MAX as int),
            r == Err::<Config, ConfigError>(ConfigError::InvalidGrpcTlsEnabled)
                <==> required_vars_ok(jwt_secret, database_url, redis_url, grpc_server_url)
                && opt_u64_ok(server_port, u16::MAX as int) && opt_u64_ok(
                max_db_connections,
                u32::MAX as int,
            ) && opt_u64_ok(max_request_size, usize::MAX as int) && !opt_bool_ok(grpc_tls_enabled),
            r == Err::<Config, ConfigError>(ConfigError::InvalidJwtExpirationHours)
                <==> required_vars_ok(jwt_secret, database_url, redis_url, grpc_server_url)
                && opt_u64_ok(server_port, u16::MAX as int) && opt_u64_ok(
                max_db_connections,
                u32::MAX as int,
            ) && opt_u64_ok(max_request_size, usize::MAX as int) && opt_bool_ok(grpc_tls_enabled)
                && !opt_i64_ok(jwt_expiration_hours),
            (r is Ok) <==> required_vars_ok(jwt_secret, database_url, redis_url, grpc_server_url)
                && opt_u64_ok(server_port, u16::MAX as int) && opt_u64_ok(
                max_db_connections,
                u32::MAX as int,
            ) && opt_u64_ok(max_request_size, usize::MAX as int) && opt_bool_ok(grpc_tls_enabled)
                && opt_i64_ok(jwt_expiration_hours),
    {
        let jwt = match jwt_secret {
            None => {
                return Err(ConfigError::MissingJwtSecret);
            },
            Some(s) => s,
        };
        if jwt.as_str().unicode_len() < MIN_JWT_SECRET_LEN {
            return Err(ConfigError::WeakJwtSecret);
        }
        let database_url = match database_url {
            None => {
                return Err(ConfigError::MissingDatabaseUrl);
            },
            Some(s) => s,
        };
        let redis_url = match redis_url {
            None => {
                return Err(ConfigError::MissingRedisUrl);
            },
            Some(s) => s,
        };
        let grpc_server_url = match grpc_server_url {
            None => {
                return Err(ConfigError::MissingGrpcServerUrl);
            },
            Some(s) => s,
        };
        let server_host = match server_host {
            None => String::from_str("127.0.0.1"),
            Some(s) => s,
        };
        let server_port: u16 = match server_port {
            None => 3000,
            Some(s) => {
                match parse_bounded(s.as_str(), 65535) {
                    None => {
                        return Err(ConfigError::InvalidServerPort);
                    },
                    Some(v) => v as u16,
                }
            },
        };
        let max_db_connections: u32 = match max_db_connections {
            None => 5,
            Some(s) => {
                match parse_bounded(s.as_str(), 4294967295) {
                    None => {
                        return Err(ConfigError::InvalidMaxDbConnections);
                    },
                    Some(v) => v as u32,
                }
            },
        };
        let log_level = match log_level {
            None => String::from_str("info"),
            Some(s) => s,
        };
        let max_request_size: usize = match max_request_size {
            None => 1048576,
            Some(s) => {
                match parse_bounded(s.as_str(), usize::MAX as u64) {
                    None => {
                        return Err(ConfigError::InvalidMaxRequestSize);
                    },
                    Some(v) => v as usize,
                }
            },
        };
        let grpc_tls_enabled: bool = match grpc_tls_enabled {
            None => false,
            Some(s) => {
                match parse_bool_text(s.as_str()) {
                    None => {
                        return Err(ConfigError::InvalidGrpcTlsEnabled);
                    },
                    Some(b) => b,
                }
            },
        };
        let jwt_expiration_hours: i64 = match jwt_expiration_hours {
            None => 24,
            Some(s) => {
                match parse_i64_text(s.as_str()) {
                    None => {
                        return Err(ConfigError::InvalidJwtExpirationHours);
                    },
                    Some(v) => v,
                }
            },
        };
        Ok(
            Config {
                database_url,
                redis_url,
                grpc_server_url,
                jwt_secret: jwt,
                server_host,
                server_port,
                max_db_connections,
                log_level,
                max_request_size,
                grpc_tls_enabled,
                jwt_expiration_hours,
            },
        )
    }
}

} // verus!
