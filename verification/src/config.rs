//! The project configuration `.da/config.toml`: where to deploy, how to
//! authenticate, how to build.

use vstd::prelude::*;
use crate::paths::{join, join_spec};
use crate::text::{chars_of, decimal, decimal_string, has_prefix, push_str, starts_with_chars, string_from_range};

verus! {

/// Where the configuration lives, relative to the project root.
pub const CONFIG_PATH: &'static str = ".da/config.toml";

/// How to log in on the remote host: exactly one of the two kinds.
#[derive(Debug, Clone, PartialEq)]
pub enum Auth {
    /// A private key file (`~` is expanded to the home directory).
    Key {
        /// The key file.
        key_path: String,
    },
    /// A password, stored in plain text.
    Password {
        /// The password.
        password: String,
    },
}

/// The local build.
#[derive(Debug, Clone, PartialEq)]
pub struct Build {
    /// The command run in the local shell at the project root.
    pub command: String,
    /// The folder the build produces (relative to the root).
    pub output_dir: String,
}

/// The remote destination.
#[derive(Debug, Clone, PartialEq)]
pub struct Deploy {
    /// The destination folder on the remote host.
    pub remote_dir: String,
    /// Delete the remote content before sending (default `true`).
    pub clean_remote: bool,
}

/// The whole configuration.
#[derive(Debug, Clone, PartialEq)]
pub struct Config {
    /// Host name or address.
    pub host: String,
    /// SSH port (default `22`).
    pub port: u16,
    /// Remote user.
    pub user: String,
    /// How to authenticate.
    pub auth: Auth,
    /// The local build.
    pub build: Build,
    /// The remote destination.
    pub deploy: Deploy,
}

/// The SSH port used when the configuration names none.
pub fn default_port() -> (p: u16)
    ensures
        p == 22,
{
    22
}

/// The value of `clean_remote` when the configuration omits it.
pub fn default_true() -> (b: bool)
    ensures
        b,
{
    true
}

/// The view of an optional text.
pub open spec fn opt_text(f: Option<&str>) -> Option<Seq<char>> {
    match f {
        Some(t) => Some(t@),
        None => None,
    }
}

/// `p` with a leading `~/` replaced by the home directory `home`, when there
/// is one (`home.join(rest)`); otherwise `p` unchanged.
pub open spec fn expand_with(p: Seq<char>, home: Option<Seq<char>>) -> Seq<char> {
    if has_prefix(p, seq!['~', '/']) && home is Some {
        join_spec(home.unwrap(), p.subrange(2, p.len() as int))
    } else {
        p
    }
}

/// Expands a leading `~/` of `p` to the home directory `home`.
pub fn expand_tilde_with(p: &str, home: Option<&str>) -> (r: String)
    ensures
        r@ == expand_with(p@, opt_text(home)),
{
    let v = chars_of(p);
    let pre = chars_of("~/");
    proof {
        reveal_strlit("~/");
        assert("~/"@ =~= seq!['~', '/']);
    }
    if starts_with_chars(&v, &pre) {
        if let Some(h) = home {
            let rest = string_from_range(&v, 2, v.len());
            return join(h, rest.as_str());
        }
    }
    let mut r = String::new();
    push_str(&mut r, p);
    assert(r@ =~= p@);
    r
}

/// The user's home directory (`dirs::home_dir`), as text, or nothing when it
/// cannot be determined. Which directory comes back depends on the
/// environment and the platform, so nothing is stated of it.
#[verifier::external_body]
fn home_dir() -> (r: Option<String>) {
    match dirs::home_dir() {
        Some(p) => Some(p.to_string_lossy().into_owned()),
        None => None,
    }
}

/// Expands a leading `~/` of `p` to the user's home directory.
pub fn expand_tilde(p: &str) -> (r: String)
    ensures
        exists|h: Option<Seq<char>>| r@ == expand_with(p@, h),
{
    let home = home_dir();
    let r = match &home {
        Some(h) => expand_tilde_with(p, Some(h.as_str())),
        None => expand_tilde_with(p, None),
    };
    proof {
        let h = match home {
            Some(x) => Some(x@),
            None => None,
        };
        assert(r@ == expand_with(p@, h));
    }
    r
}

impl Config {
    /// The key path with `~` expanded, for key authentication.
    pub fn key_path_expanded(&self) -> (r: Option<String>)
        ensures
            match self.auth {
                Auth::Key { key_path } => r matches Some(x) && exists|h: Option<Seq<char>>|
                    x@ == expand_with(key_path@, h),
                Auth::Password { .. } => r is None,
            },
    {
        match &self.auth {
            Auth::Key { key_path } => Some(expand_tilde(key_path.as_str())),
            Auth::Password { .. } => None,
        }
    }

    /// `user@host:port`, as the log names the remote.
    pub fn target(&self) -> (r: String)
        ensures
            r@ == self.user@ + seq!['@'] + self.host@ + seq![':'] + decimal(self.port as nat),
    {
        let mut r = String::new();
        push_str(&mut r, self.user.as_str());
        crate::text::push_char(&mut r, '@');
        push_str(&mut r, self.host.as_str());
        crate::text::push_char(&mut r, ':');
        let d = decimal_string(self.port as u128);
        push_str(&mut r, d.as_str());
        r
    }
}

} // verus!
