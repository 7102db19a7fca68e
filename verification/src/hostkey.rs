//! Host key verification against man-in-the-middle attacks: on the first
//! connection to a host its SHA256 fingerprint is shown and confirmation is
//! asked before it is remembered in `~/.ssh/known_hosts`; on later ones the
//! key must match, and a changed key aborts the deploy.

use vstd::prelude::*;
use crate::text::{decimal, decimal_string, push_str};

verus! {

/// What `known_hosts` says of the key the host presented.
#[derive(Debug, Clone, Copy, PartialEq, Eq, Structural)]
pub enum HostKeyCheck {
    /// The host is known with this very key.
    Match,
    /// The host is not known yet.
    NotFound,
    /// The host is known with another key.
    Mismatch,
    /// The check could not be made.
    Failure,
}

/// What to do about the host key.
#[derive(Debug, Clone, Copy, PartialEq, Eq, Structural)]
pub enum HostKeyStep {
    /// Go on with the connection.
    Proceed,
    /// Show the fingerprint and ask the user whether to trust the host.
    Ask,
    /// Remember the key in `known_hosts`, then go on.
    Remember,
    /// Stop: the key cannot be trusted.
    Abort,
}

/// The step for the outcome `check` of the `known_hosts` lookup.
pub open spec fn host_key_step_spec(check: HostKeyCheck) -> HostKeyStep {
    match check {
        HostKeyCheck::Match => HostKeyStep::Proceed,
        HostKeyCheck::NotFound => HostKeyStep::Ask,
        HostKeyCheck::Mismatch | HostKeyCheck::Failure => HostKeyStep::Abort,
    }
}

/// What to do once `known_hosts` has been consulted: a known key goes on, an
/// unknown host is asked about, a changed key (possible MITM) or a failed
/// check aborts.
pub fn host_key_step(check: HostKeyCheck) -> (s: HostKeyStep)
    ensures
        s == host_key_step_spec(check),
{
    match check {
        HostKeyCheck::Match => HostKeyStep::Proceed,
        HostKeyCheck::NotFound => HostKeyStep::Ask,
        HostKeyCheck::Mismatch | HostKeyCheck::Failure => HostKeyStep::Abort,
    }
}

/// What to do once the user answered whether to trust an unknown host: a key
/// is remembered only when the user confirmed it.
pub fn trust_answer(confirmed: bool) -> (s: HostKeyStep)
    ensures
        confirmed ==> s == HostKeyStep::Remember,
        !confirmed ==> s == HostKeyStep::Abort,
{
    if confirmed {
        HostKeyStep::Remember
    } else {
        HostKeyStep::Abort
    }
}

/// The name a host is remembered under in `known_hosts`: the plain host on
/// the default port 22, `[host]:port` on any other.
pub open spec fn known_host_name_spec(host: Seq<char>, port: nat) -> Seq<char> {
    if port == 22 {
        host
    } else {
        seq!['['] + host + seq![']', ':'] + decimal(port)
    }
}

/// The `known_hosts` name of `host` reached on `port`.
pub fn known_host_name(host: &str, port: u16) -> (r: String)
    ensures
        r@ == known_host_name_spec(host@, port as nat),
{
    let mut r = String::new();
    if port == 22 {
        push_str(&mut r, host);
        return r;
    }
    crate::text::push_char(&mut r, '[');
    push_str(&mut r, host);
    crate::text::push_char(&mut r, ']');
    crate::text::push_char(&mut r, ':');
    let d = decimal_string(port as u128);
    push_str(&mut r, d.as_str());
    assert(r@ =~= known_host_name_spec(host@, port as nat));
    r
}

/// The base64 digit of a 6-bit value.
pub open spec fn b64_char(v: int) -> char {
    if v < 26 {
        (65 + v) as char
    } else if v < 52 {
        (97 + (v - 26)) as char
    } else if v < 62 {
        (48 + (v - 52)) as char
    } else if v == 62 {
        '+'
    } else {
        '/'
    }
}

/// The unpadded base64 text of `s` (standard alphabet), three bytes to four
/// digits, a final one or two bytes to two or three digits.
pub open spec fn b64(s: Seq<u8>) -> Seq<char>
    decreases s.len(),
{
    if s.len() == 0 {
        seq![]
    } else {
        let a = s[0] as int;
        if s.len() == 1 {
            seq![b64_char(a / 4), b64_char((a % 4) * 16)]
        } else {
            let b = s[1] as int;
            if s.len() == 2 {
                seq![b64_char(a / 4), b64_char((a % 4) * 16 + b / 16), b64_char((b % 16) * 4)]
            } else {
                let c = s[2] as int;
                seq![
                    b64_char(a / 4),
                    b64_char((a % 4) * 16 + b / 16),
                    b64_char((b % 16) * 4 + c / 64),
                    b64_char(c % 64),
                ] + b64(s.subrange(3, s.len() as int))
            }
        }
    }
}

fn b64_digit(v: u8) -> (c: char)
    requires
        v < 64,
    ensures
        c == b64_char(v as int),
{
    if v < 26 {
        (65 + v) as char
    } else if v < 52 {
        (97 + (v - 26)) as char
    } else if v < 62 {
        (48 + (v - 52)) as char
    } else if v == 62 {
        '+'
    } else {
        '/'
    }
}

/// How OpenSSH shows a SHA256 key fingerprint: `SHA256:` and the unpadded
/// base64 of the digest.
pub open spec fn fingerprint_spec(digest: Seq<u8>) -> Seq<char> {
    "SHA256:"@ + b64(digest)
}

/// The fingerprint shown for the SHA256 digest `digest` of a host key.
pub fn fingerprint(digest: &[u8]) -> (r: String)
    ensures
        r@ == fingerprint_spec(digest@),
{
    let mut r = String::new();
    push_str(&mut r, "SHA256:");
    proof {
        reveal_strlit("SHA256:");
    }
    let ghost head = r@;
    let n = digest.len();
    let mut i: usize = 0;
    assert(digest@.subrange(0, n as int) =~= digest@);
    while i < n
        invariant
            i <= n,
            n == digest@.len(),
            head == "SHA256:"@,
            r@ + b64(digest@.subrange(i as int, n as int)) == head + b64(digest@),
        decreases n - i,
    {
        let ghost rest = digest@.subrange(i as int, n as int);
        let a = digest[i];
        crate::text::push_char(&mut r, b64_digit(a / 4));
        if n - i == 1 {
            crate::text::push_char(&mut r, b64_digit((a % 4) * 16));
            assert(rest =~= seq![a]);
            i = n;
        } else {
            let b = digest[i + 1];
            crate::text::push_char(&mut r, b64_digit((a % 4) * 16 + b / 16));
            if n - i == 2 {
                crate::text::push_char(&mut r, b64_digit((b % 16) * 4));
                assert(rest =~= seq![a, b]);
                i = n;
            } else {
                let c = digest[i + 2];
                crate::text::push_char(&mut r, b64_digit((b % 16) * 4 + c / 64));
                crate::text::push_char(&mut r, b64_digit(c % 64));
                assert(rest.subrange(3, rest.len() as int) =~= digest@.subrange(i + 3, n as int));
                i = i + 3;
            }
        }
    }
    assert(digest@.subrange(n as int, n as int) =~= seq![]);
    r
}

} // verus!
