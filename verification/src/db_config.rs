//! Connection settings for the store; reading them from the
//! environment happens at the edge.

use vstd::prelude::*;

verus! {

/// How the connection treats TLS.
#[derive(Debug, Clone, Copy, PartialEq, Eq, Structural)]
pub enum SslMode {
    /// No TLS.
    Disable,
    /// TLS when the server offers it.
    Prefer,
    /// TLS or nothing.
    Require,
}

impl Default for SslMode {
    /// TLS stays off unless asked for.
    fn default() -> (r: Self)
        ensures
            r == SslMode::Disable,
    {
        SslMode::Disable
    }
}

impl core::str::FromStr for SslMode {
    type Err = String;

    /// Reads the usual spellings of the three modes.
    fn from_str(s: &str) -> Result<Self, String> {
        proof {
            reveal_strlit("disable");
            reveal_strlit("off");
            reveal_strlit("false");
            reveal_strlit("no");
            reveal_strlit("prefer");
            reveal_strlit("require");
            reveal_strlit("on");
            reveal_strlit("true");
            reveal_strlit("yes");
        }
        let cs = crate::text::chars_of(s);
        let l = crate::text::to_lower_chars(cs.as_slice());
        let lv = l.as_slice();
        let disable_w = crate::text::chars_of("disable");
        let off_w = crate::text::chars_of("off");
        let false_w = crate::text::chars_of("false");
        let no_w = crate::text::chars_of("no");
        let prefer_w = crate::text::chars_of("prefer");
        let require_w = crate::text::chars_of("require");
        let on_w = crate::text::chars_of("on");
        let true_w = crate::text::chars_of("true");
        let yes_w = crate::text::chars_of("yes");
        if crate::text::chars_eq(lv, disable_w.as_slice()) || crate::text::chars_eq(
            lv,
            off_w.as_slice(),
        ) || crate::text::chars_eq(lv, false_w.as_slice()) || crate::text::chars_eq(
            lv,
            no_w.as_slice(),
        ) {
            Ok(SslMode::Disable)
        } else if crate::text::chars_eq(lv, prefer_w.as_slice()) {
            Ok(SslMode::Prefer)
        } else if crate::text::chars_eq(lv, require_w.as_slice()) || crate::text::chars_eq(
            lv,
            on_w.as_slice(),
        ) || crate::text::chars_eq(lv, true_w.as_slice()) || crate::text::chars_eq(
            lv,
            yes_w.as_slice(),
        ) {
            Ok(SslMode::Require)
        } else {
            Err("Invalid SSL mode. Use: disable, prefer, require".to_owned())
        }
    }
}

/// Where and how to reach the store.
#[derive(Debug, Clone)]
pub struct DatabaseConfig {
    pub host: String,
    pub port: u16,
    pub dbname: String,
    pub user: String,
    pub password: Option<String>,
    pub pool_size: usize,
    pub ssl_mode: SslMode,
}

impl Default for DatabaseConfig {
    /// A local default store.
    fn default() -> (r: Self)
        ensures
            r.port == 5432,
            r.pool_size == 16,
            r.ssl_mode == SslMode::Disable,
            r.password is None,
    {
        DatabaseConfig {
            host: "localhost".to_owned(),
            port: 5432,
            dbname: "cadastre".to_owned(),
            user: "postgres".to_owned(),
            password: None,
            pool_size: 16,
            ssl_mode: SslMode::Disable,
        }
    }
}

} // verus!
