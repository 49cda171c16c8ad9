//! Application configuration.
//!
//! Loading the raw values — a configuration file, environment overrides —
//! is a collaborator's job; the library only assembles the configuration
//! they describe.  The URLs are taken verbatim; the server port must name a
//! 16-bit port number, exactly as a `u16` reads one: optional leading `+`,
//! then decimal digits (leading zeros included) whose value fits.

use vstd::prelude::*;

use crate::text::{all_digits, chars_of, digits_val, is_digit, lemma_digits_val_bound, suffix_chars};

verus! {

/// Where the canonical store lives.
pub struct DatabaseConfig {
    pub url: String,
}

/// The application's configuration.
pub struct Config {
    pub database: DatabaseConfig,
    pub server_port: u16,
    pub results_url: String,
}

/// A raw configuration value that does not describe a configuration.
#[derive(Clone, Copy, Debug, PartialEq, Eq, Structural)]
pub enum ConfigError {
    /// The server port token does not name a 16-bit port number.
    InvalidServerPort,
}

/// The digits of a port token: an optional single leading `+` is dropped.
pub open spec fn port_token_digits(s: Seq<char>) -> Seq<char> {
    if s.len() > 0 && s[0] == '+' {
        s.drop_first()
    } else {
        s
    }
}

/// The port a raw port token names, as `u16` parsing reads it: after an
/// optional leading `+`, at least one decimal digit (leading zeros
/// allowed), with a value of at most 65535.
pub open spec fn spec_parse_port(s: Seq<char>) -> Option<u16> {
    let d = port_token_digits(s);
    if d.len() >= 1 && all_digits(d) && digits_val(d) <= 65535 {
        Some(digits_val(d) as u16)
    } else {
        None
    }
}

/// Parses a port token exactly as `spec_parse_port` describes.
fn parse_port(s: &str) -> (r: Option<u16>)
    ensures
        r == spec_parse_port(s@),
{
    let cs = chars_of(s);
    let d: Vec<char> = if cs.len() > 0 && cs[0] == '+' {
        proof {
            assert(cs@.skip(1) =~= cs@.drop_first());
        }
        suffix_chars(&cs, 1)
    } else {
        cs
    };
    proof {
        assert(d@ == port_token_digits(s@));
    }
    if d.len() == 0 {
        return None;
    }
    let mut val: u32 = 0;
    let mut i: usize = 0;
    while i < d.len()
        invariant
            0 <= i <= d.len(),
            d@ == port_token_digits(s@),
            d@.len() >= 1,
            all_digits(d@.take(i as int)),
            digits_val(d@.take(i as int)) <= 65535 ==> val == digits_val(d@.take(i as int)),
            digits_val(d@.take(i as int)) > 65535 ==> val > 65535,
            0 <= val <= 655359,
        decreases d.len() - i,
    {
        let c = d[i];
        if c < '0' || c > '9' {
            assert(!is_digit(d@[i as int]));
            return None;
        }
        proof {
            assert(d@.take(i as int + 1).drop_last() =~= d@.take(i as int));
            assert(d@.take(i as int + 1).last() == d@[i as int]);
            lemma_digits_val_bound(d@.take(i as int));
        }
        if val <= 65535 {
            val = val * 10 + (c as u32 - 48);
        }
        i += 1;
        proof {
            assert(all_digits(d@.take(i as int)));
        }
    }
    proof {
        assert(d@.take(d@.len() as int) =~= d@);
    }
    if val <= 65535 {
        Some(val as u16)
    } else {
        None
    }
}

/// Assembles the configuration from raw textual values.  `Ok` exactly when
/// the port token names a 16-bit port number; the URLs are taken verbatim,
/// the empty string included.
pub fn load_config(database_url: &str, server_port: &str, results_url: &str) -> (r: Result<
    Config,
    ConfigError,
>)
    ensures
        match r {
            Ok(c) => spec_parse_port(server_port@) == Some(c.server_port) && c.database.url@
                == database_url@ && c.results_url@ == results_url@,
            Err(e) => e == ConfigError::InvalidServerPort && spec_parse_port(server_port@)
                is None,
        },
{
    let port: u16 = match parse_port(server_port) {
        Some(p) => p,
        None => {
            return Err(ConfigError::InvalidServerPort);
        },
    };
    Ok(
        Config {
            database: DatabaseConfig { url: String::from_str(database_url) },
            server_port: port,
            results_url: String::from_str(results_url),
        },
    )
}

} // verus!
